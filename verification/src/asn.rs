//! ASN attribution: mapping a list of IP addresses to a deduplicated list of
//! autonomous-system records.
//!
//! The lookup table itself is built and owned by ip2asn; this module carries
//! it as an opaque value whose contents are named by `asn_table`. Everything
//! after the raw lookup — keying by AS number, merging network blocks without
//! duplicates — is verified against the `merge_entry`/`aggregate_from` model.

use vstd::prelude::*;

use crate::ip::{IpAddress, IpNet};
use ip2asn::IpAsnMap;

verus! {

/// The read-only IP-to-ASN lookup table built by ip2asn, declared so that
/// verified code can hold and pass it.
#[verifier::external_type_specification]
#[verifier::external_body]
pub struct ExIpAsnMap(IpAsnMap);

/// The contents of an ip2asn lookup table, as plain values: for every address
/// covered by some range of the table, the entry of the longest covering
/// range — its CIDR block, AS number, organization and country code.
pub uninterp spec fn asn_table(table: IpAsnMap) -> Map<
    IpAddress,
    (IpNet, u32, Seq<char>, Seq<char>),
>;

/// What the table answers for one address: its entry, or nothing when no
/// range of the table covers the address.
pub open spec fn entry_for(table: IpAsnMap, ip: IpAddress) -> Option<
    (IpNet, u32, Seq<char>, Seq<char>),
> {
    if asn_table(table).contains_key(ip) {
        Some(asn_table(table)[ip])
    } else {
        None
    }
}

/// The table's answers for a whole list of addresses, in order.
pub open spec fn lookups(table: IpAsnMap, ips: Seq<IpAddress>) -> Seq<
    Option<(IpNet, u32, Seq<char>, Seq<char>)>,
> {
    ips.map_values(|ip: IpAddress| entry_for(table, ip))
}

/// One raw table match for a single address.
pub struct AsnMatch {
    pub network: IpNet,
    pub asn: u32,
    pub organization: String,
    pub country_code: String,
}

impl View for AsnMatch {
    type V = (IpNet, u32, Seq<char>, Seq<char>);

    open spec fn view(&self) -> Self::V {
        (self.network, self.asn, self.organization@, self.country_code@)
    }
}

/// One aggregated autonomous-system record: the AS number is the key, and
/// `network` collects every distinct CIDR block matched for that AS number.
#[derive(Debug, Clone)]
pub struct Asn {
    pub network: Vec<IpNet>,
    pub asn: u32,
    pub organization: String,
    pub country_code: String,
}

impl View for Asn {
    type V = (Seq<IpNet>, u32, Seq<char>, Seq<char>);

    open spec fn view(&self) -> Self::V {
        (self.network@, self.asn, self.organization@, self.country_code@)
    }
}

/// Relies on ip2asn::IpAsnMap::lookup_owned: a longest-prefix-match lookup
/// answering the covering entry of the table, determined by the table and the
/// address alone.
#[verifier::external_body]
fn table_lookup(table: &IpAsnMap, ip: &IpAddress) -> (r: Option<AsnMatch>)
    ensures
        match r {
            Some(m) => asn_table(*table).contains_key(*ip) && asn_table(*table)[*ip] == m@,
            None => !asn_table(*table).contains_key(*ip),
        },
{
    let std_ip = match ip {
        IpAddress::V4(b) => core::net::IpAddr::V4(core::net::Ipv4Addr::from(*b)),
        IpAddress::V6(b) => core::net::IpAddr::V6(core::net::Ipv6Addr::from(*b)),
    };
    table.lookup_owned(std_ip).map(|info| {
        let base = match info.network.network_address() {
            core::net::IpAddr::V4(a) => IpAddress::V4(u32::from(a)),
            core::net::IpAddr::V6(a) => IpAddress::V6(u128::from(a)),
        };
        let network = IpNet { base, prefix: info.network.netmask() };
        AsnMatch { network, asn: info.asn, organization: info.organization, country_code: info.country_code }
    })
}

impl Asn {
    /// The single-match record for one address: the covering network alone in
    /// its network list, or nothing when the table does not cover the address.
    pub fn from_ip(ip: &IpAddress, table: &IpAsnMap) -> (r: Option<Asn>)
        ensures
            match entry_for(*table, *ip) {
                Some(e) => r matches Some(a) && a@ == (seq![e.0], e.1, e.2, e.3),
                None => r is None,
            },
    {
        match table_lookup(table, ip) {
            Some(m) => Some(
                Asn {
                    network: vec![m.network],
                    asn: m.asn,
                    organization: m.organization,
                    country_code: m.country_code,
                },
            ),
            None => None,
        }
    }
}

/// No network block appears twice in the list.
pub open spec fn distinct_nets(nets: Seq<IpNet>) -> bool {
    forall|i: int, j: int| 0 <= i < j < nets.len() ==> nets[i] != nets[j]
}

/// Well-formed aggregation result: at most one record per AS number, and no
/// record lists the same network block twice.
pub open spec fn wf_records(acc: Seq<(Seq<IpNet>, u32, Seq<char>, Seq<char>)>) -> bool {
    &&& forall|i: int, j: int| 0 <= i < j < acc.len() ==> acc[i].1 != acc[j].1
    &&& forall|k: int| 0 <= k < acc.len() ==> distinct_nets(#[trigger] acc[k].0)
}

/// Whether some record of the accumulator already carries this AS number.
pub open spec fn has_asn(acc: Seq<(Seq<IpNet>, u32, Seq<char>, Seq<char>)>, a: u32) -> bool {
    exists|k: int| 0 <= k < acc.len() && acc[k].1 == a
}

/// An index of the record carrying this AS number; unique when the
/// accumulator is well formed.
pub open spec fn index_of_asn(acc: Seq<(Seq<IpNet>, u32, Seq<char>, Seq<char>)>, a: u32) -> int {
    choose|k: int| 0 <= k < acc.len() && acc[k].1 == a
}

/// Idempotent union of one network block into a block list.
pub open spec fn add_net(nets: Seq<IpNet>, n: IpNet) -> Seq<IpNet> {
    if nets.contains(n) {
        nets
    } else {
        nets.push(n)
    }
}

/// One aggregation step: a fresh AS number starts a new record with a
/// single-block list; a known AS number only unions the matched block into
/// its record.
pub open spec fn merge_entry(
    acc: Seq<(Seq<IpNet>, u32, Seq<char>, Seq<char>)>,
    e: (IpNet, u32, Seq<char>, Seq<char>),
) -> Seq<(Seq<IpNet>, u32, Seq<char>, Seq<char>)> {
    if has_asn(acc, e.1) {
        let k = index_of_asn(acc, e.1);
        acc.update(k, (add_net(acc[k].0, e.0), acc[k].1, acc[k].2, acc[k].3))
    } else {
        acc.push((seq![e.0], e.1, e.2, e.3))
    }
}

/// The aggregation folded over a list of lookup answers, left to right,
/// skipping the addresses that no range covered.
pub open spec fn aggregate_from(
    acc: Seq<(Seq<IpNet>, u32, Seq<char>, Seq<char>)>,
    ms: Seq<Option<(IpNet, u32, Seq<char>, Seq<char>)>>,
) -> Seq<(Seq<IpNet>, u32, Seq<char>, Seq<char>)>
    decreases ms.len(),
{
    if ms.len() == 0 {
        acc
    } else {
        let acc2 = match ms.first() {
            Some(e) => merge_entry(acc, e),
            None => acc,
        };
        aggregate_from(acc2, ms.drop_first())
    }
}

/// The whole attribution of a list of lookup answers.
pub open spec fn spec_attribute(
    ms: Seq<Option<(IpNet, u32, Seq<char>, Seq<char>)>>,
) -> Seq<(Seq<IpNet>, u32, Seq<char>, Seq<char>)> {
    aggregate_from(Seq::empty(), ms)
}

/// Union one matched network block into a record, keeping the block list
/// free of duplicates.
fn update_asn_network(rec: &mut Asn, new_network: IpNet)
    ensures
        final(rec)@ == (
            add_net(old(rec)@.0, new_network),
            old(rec)@.1,
            old(rec)@.2,
            old(rec)@.3,
        ),
{
    let mut i: usize = 0;
    let mut found = false;
    while i < rec.network.len()
        invariant
            i <= rec.network.len(),
            *rec == *old(rec),
            found == exists|j: int| 0 <= j < i as int && old(rec).network@[j] == new_network,
        decreases rec.network.len() - i,
    {
        if rec.network[i] == new_network {
            found = true;
        }
        i += 1;
    }
    proof {
        assert(found == old(rec).network@.contains(new_network));
    }
    if !found {
        rec.network.push(new_network);
    }
}

/// Merge one raw match into the accumulator, keyed by AS number.
fn merge_match(acc: &mut Vec<Asn>, m: AsnMatch)
    requires
        wf_records(old(acc)@.map_values(|a: Asn| a@)),
    ensures
        final(acc)@.map_values(|a: Asn| a@) == merge_entry(
            old(acc)@.map_values(|a: Asn| a@),
            m@,
        ),
{
    let ghost v0 = old(acc)@.map_values(|a: Asn| a@);
    let mut idx: Option<usize> = None;
    let mut i: usize = 0;
    while i < acc.len()
        invariant
            i <= acc.len(),
            *acc == *old(acc),
            v0 == old(acc)@.map_values(|a: Asn| a@),
            match idx {
                Some(k) => k < i && v0[k as int].1 == m.asn,
                None => forall|j: int| 0 <= j < i as int ==> v0[j].1 != m.asn,
            },
        decreases acc.len() - i,
    {
        proof {
            assert(v0[i as int] == old(acc)@[i as int]@);
        }
        if idx.is_none() && acc[i].asn == m.asn {
            idx = Some(i);
        }
        i += 1;
    }
    match idx {
        Some(k) => {
            proof {
                assert(v0[k as int].1 == m@.1);
                assert(has_asn(v0, m@.1));
                let k2 = index_of_asn(v0, m@.1);
                if k2 != k as int {
                    assert(v0[k2].1 == v0[k as int].1);
                    assert(false);
                }
            }
            update_asn_network(&mut acc[k], m.network);
            proof {
                assert(acc@.map_values(|a: Asn| a@) =~= merge_entry(v0, m@));
            }
        },
        None => {
            proof {
                assert(!has_asn(v0, m@.1));
            }
            acc.push(
                Asn {
                    network: vec![m.network],
                    asn: m.asn,
                    organization: m.organization,
                    country_code: m.country_code,
                },
            );
            proof {
                assert(acc@.map_values(|a: Asn| a@) =~~= merge_entry(v0, m@));
            }
        },
    }
}

/// Merging preserves well-formedness of the accumulator.
proof fn lemma_merge_wf(
    acc: Seq<(Seq<IpNet>, u32, Seq<char>, Seq<char>)>,
    e: (IpNet, u32, Seq<char>, Seq<char>),
)
    requires
        wf_records(acc),
    ensures
        wf_records(merge_entry(acc, e)),
{
    if has_asn(acc, e.1) {
        let k = index_of_asn(acc, e.1);
        assert(0 <= k < acc.len() && acc[k].1 == e.1);
        let merged = merge_entry(acc, e);
        assert(distinct_nets(add_net(acc[k].0, e.0)));
        assert(forall|i: int| 0 <= i < merged.len() ==> distinct_nets(#[trigger] merged[i].0));
    }
}

/// Folding a whole answer list preserves well-formedness.
proof fn lemma_aggregate_wf(
    acc: Seq<(Seq<IpNet>, u32, Seq<char>, Seq<char>)>,
    ms: Seq<Option<(IpNet, u32, Seq<char>, Seq<char>)>>,
)
    requires
        wf_records(acc),
    ensures
        wf_records(aggregate_from(acc, ms)),
    decreases ms.len(),
{
    if ms.len() > 0 {
        match ms.first() {
            Some(e) => {
                lemma_merge_wf(acc, e);
                lemma_aggregate_wf(merge_entry(acc, e), ms.drop_first());
            },
            None => {
                lemma_aggregate_wf(acc, ms.drop_first());
            },
        }
    }
}

/// Folding answers one more answer at the end is one more merge step.
proof fn lemma_aggregate_snoc(
    acc: Seq<(Seq<IpNet>, u32, Seq<char>, Seq<char>)>,
    ms: Seq<Option<(IpNet, u32, Seq<char>, Seq<char>)>>,
    m: Option<(IpNet, u32, Seq<char>, Seq<char>)>,
)
    ensures
        aggregate_from(acc, ms.push(m)) == (match m {
            Some(e) => merge_entry(aggregate_from(acc, ms), e),
            None => aggregate_from(acc, ms),
        }),
    decreases ms.len(),
{
    if ms.len() == 0 {
        assert(ms.push(m).first() == m);
        assert(ms.push(m).drop_first() =~= Seq::empty());
        match m {
            Some(e) => {
                assert(aggregate_from(merge_entry(acc, e), ms.push(m).drop_first())
                    == merge_entry(acc, e));
            },
            None => {
                assert(aggregate_from(acc, ms.push(m).drop_first()) == acc);
            },
        }
    } else {
        assert(ms.push(m).first() == ms.first());
        assert(ms.push(m).drop_first() =~= ms.drop_first().push(m));
        match ms.first() {
            Some(e) => {
                lemma_aggregate_snoc(merge_entry(acc, e), ms.drop_first(), m);
            },
            None => {
                lemma_aggregate_snoc(acc, ms.drop_first(), m);
            },
        }
    }
}

/// The AS numbers carried by an aggregation result.
pub open spec fn output_asns(acc: Seq<(Seq<IpNet>, u32, Seq<char>, Seq<char>)>) -> Set<u32> {
    Set::new(|a: u32| has_asn(acc, a))
}

/// The AS numbers matched anywhere across a list of lookup answers.
pub open spec fn matched_asns(ms: Seq<Option<(IpNet, u32, Seq<char>, Seq<char>)>>) -> Set<u32> {
    Set::new(
        |a: u32| exists|i: int| 0 <= i < ms.len() && (#[trigger] ms[i]) is Some && (ms[i]->0).1 == a,
    )
}

/// Whether one lookup answer is already accounted for: an uncovered address
/// always is; a match is accounted for once some record carries its AS
/// number and lists its network block.
pub open spec fn absorbed(
    acc: Seq<(Seq<IpNet>, u32, Seq<char>, Seq<char>)>,
    m: Option<(IpNet, u32, Seq<char>, Seq<char>)>,
) -> bool {
    match m {
        None => true,
        Some(e) => exists|k: int|
            0 <= k < acc.len() && (#[trigger] acc[k]).1 == e.1 && acc[k].0.contains(e.0),
    }
}

proof fn lemma_add_net_contains(nets: Seq<IpNet>, n: IpNet, x: IpNet)
    ensures
        add_net(nets, n).contains(n),
        nets.contains(x) ==> add_net(nets, n).contains(x),
{
    if !nets.contains(n) {
        assert(nets.push(n)[nets.len() as int] == n);
    }
    if nets.contains(x) {
        let j = choose|j: int| 0 <= j < nets.len() && nets[j] == x;
        assert(add_net(nets, n)[j] == x);
    }
}

proof fn lemma_merge_asns(
    acc: Seq<(Seq<IpNet>, u32, Seq<char>, Seq<char>)>,
    e: (IpNet, u32, Seq<char>, Seq<char>),
)
    ensures
        output_asns(merge_entry(acc, e)) == output_asns(acc).insert(e.1),
{
    let merged = merge_entry(acc, e);
    if has_asn(acc, e.1) {
        let k0 = index_of_asn(acc, e.1);
        assert(0 <= k0 < acc.len() && acc[k0].1 == e.1);
        assert(forall|k: int| 0 <= k < acc.len() ==> (#[trigger] merged[k]).1 == acc[k].1);
        assert forall|a: u32| output_asns(merged).contains(a) implies output_asns(
            acc,
        ).insert(e.1).contains(a) by {
            let k = choose|k: int| 0 <= k < merged.len() && (#[trigger] merged[k]).1 == a;
            assert(acc[k].1 == a);
        };
        assert forall|a: u32| output_asns(acc).insert(e.1).contains(a) implies output_asns(
            merged,
        ).contains(a) by {
            if a == e.1 {
                assert(merged[k0].1 == a);
            } else {
                let k = choose|k: int| 0 <= k < acc.len() && (#[trigger] acc[k]).1 == a;
                assert(merged[k].1 == a);
            }
        };
        assert(output_asns(merged) =~= output_asns(acc).insert(e.1));
    } else {
        assert forall|a: u32| output_asns(merged).contains(a) implies output_asns(
            acc,
        ).insert(e.1).contains(a) by {
            let k = choose|k: int| 0 <= k < merged.len() && (#[trigger] merged[k]).1 == a;
            if k < acc.len() {
                assert(acc[k].1 == a);
            }
        };
        assert forall|a: u32| output_asns(acc).insert(e.1).contains(a) implies output_asns(
            merged,
        ).contains(a) by {
            if a == e.1 {
                assert(merged[acc.len() as int].1 == a);
            } else {
                let k = choose|k: int| 0 <= k < acc.len() && (#[trigger] acc[k]).1 == a;
                assert(merged[k].1 == a);
            }
        };
        assert(output_asns(merged) =~= output_asns(acc).insert(e.1));
    }
}

proof fn lemma_matched_shift(ms: Seq<Option<(IpNet, u32, Seq<char>, Seq<char>)>>)
    requires
        ms.len() > 0,
    ensures
        matched_asns(ms) == (match ms.first() {
            Some(e) => matched_asns(ms.drop_first()).insert(e.1),
            None => matched_asns(ms.drop_first()),
        }),
{
    let d = ms.drop_first();
    let rhs = match ms.first() {
        Some(e) => matched_asns(d).insert(e.1),
        None => matched_asns(d),
    };
    assert forall|a: u32| matched_asns(ms).contains(a) implies rhs.contains(a) by {
        let i = choose|i: int| 0 <= i < ms.len() && (#[trigger] ms[i]) is Some && (ms[i]->0).1
            == a;
        if i > 0 {
            assert(d[i - 1] == ms[i]);
            assert(matched_asns(d).contains(a));
        }
    };
    assert forall|a: u32| rhs.contains(a) implies matched_asns(ms).contains(a) by {
        if matched_asns(d).contains(a) {
            let j = choose|j: int| 0 <= j < d.len() && (#[trigger] d[j]) is Some && (d[j]->0).1
                == a;
            assert(ms[j + 1] == d[j]);
        } else {
            assert(ms.first() is Some && (ms.first()->0).1 == a);
            assert(ms[0] == ms.first());
        }
    };
    assert(matched_asns(ms) =~= rhs);
}

proof fn lemma_aggregate_asns(
    acc: Seq<(Seq<IpNet>, u32, Seq<char>, Seq<char>)>,
    ms: Seq<Option<(IpNet, u32, Seq<char>, Seq<char>)>>,
)
    ensures
        output_asns(aggregate_from(acc, ms)) == output_asns(acc).union(matched_asns(ms)),
    decreases ms.len(),
{
    if ms.len() == 0 {
        assert(matched_asns(ms) =~= Set::<u32>::empty());
        assert(output_asns(acc).union(matched_asns(ms)) =~= output_asns(acc));
    } else {
        lemma_matched_shift(ms);
        match ms.first() {
            Some(e) => {
                lemma_merge_asns(acc, e);
                lemma_aggregate_asns(merge_entry(acc, e), ms.drop_first());
                assert(output_asns(acc).insert(e.1).union(matched_asns(ms.drop_first())) =~= output_asns(
                    acc,
                ).union(matched_asns(ms.drop_first()).insert(e.1)));
            },
            None => {
                lemma_aggregate_asns(acc, ms.drop_first());
            },
        }
    }
}

proof fn lemma_merge_absorbed(
    acc: Seq<(Seq<IpNet>, u32, Seq<char>, Seq<char>)>,
    e: (IpNet, u32, Seq<char>, Seq<char>),
    m: Option<(IpNet, u32, Seq<char>, Seq<char>)>,
)
    ensures
        absorbed(merge_entry(acc, e), Some(e)),
        absorbed(acc, m) ==> absorbed(merge_entry(acc, e), m),
{
    let merged = merge_entry(acc, e);
    if has_asn(acc, e.1) {
        let k0 = index_of_asn(acc, e.1);
        assert(0 <= k0 < acc.len() && acc[k0].1 == e.1);
        lemma_add_net_contains(acc[k0].0, e.0, e.0);
        assert(merged[k0].1 == e.1 && merged[k0].0.contains(e.0));
    } else {
        assert(merged[acc.len() as int] == (seq![e.0], e.1, e.2, e.3));
        assert(seq![e.0][0] == e.0);
        assert(seq![e.0].contains(e.0));
    }
    if absorbed(acc, m) && m is Some {
        let x = m->0;
        let k = choose|k: int|
            0 <= k < acc.len() && (#[trigger] acc[k]).1 == x.1 && acc[k].0.contains(x.0);
        if has_asn(acc, e.1) {
            let k0 = index_of_asn(acc, e.1);
            if k == k0 {
                lemma_add_net_contains(acc[k0].0, e.0, x.0);
                assert(merged[k].1 == x.1 && merged[k].0.contains(x.0));
            } else {
                assert(merged[k] == acc[k]);
            }
        } else {
            assert(merged[k] == acc[k]);
        }
    }
}

proof fn lemma_aggregate_absorbed(
    acc: Seq<(Seq<IpNet>, u32, Seq<char>, Seq<char>)>,
    ms: Seq<Option<(IpNet, u32, Seq<char>, Seq<char>)>>,
)
    ensures
        forall|i: int| 0 <= i < ms.len() ==> absorbed(aggregate_from(acc, ms), #[trigger] ms[i]),
        forall|m: Option<(IpNet, u32, Seq<char>, Seq<char>)>|
            absorbed(acc, m) ==> #[trigger] absorbed(aggregate_from(acc, ms), m),
    decreases ms.len(),
{
    if ms.len() > 0 {
        let d = ms.drop_first();
        let acc2 = match ms.first() {
            Some(e) => merge_entry(acc, e),
            None => acc,
        };
        match ms.first() {
            Some(e) => {
                assert forall|m: Option<(IpNet, u32, Seq<char>, Seq<char>)>|
                    absorbed(acc, m) implies #[trigger] absorbed(acc2, m) by {
                    lemma_merge_absorbed(acc, e, m);
                };
                lemma_merge_absorbed(acc, e, None);
            },
            None => {},
        }
        lemma_aggregate_absorbed(acc2, d);
        assert forall|i: int| 0 <= i < ms.len() implies absorbed(
            aggregate_from(acc, ms),
            #[trigger] ms[i],
        ) by {
            if i == 0 {
                match ms.first() {
                    Some(e) => {
                        lemma_merge_absorbed(acc, e, None);
                        assert(absorbed(acc2, ms[0]));
                    },
                    None => {},
                }
            } else {
                assert(d[i - 1] == ms[i]);
            }
        };
    }
}

proof fn lemma_merge_noop(
    acc: Seq<(Seq<IpNet>, u32, Seq<char>, Seq<char>)>,
    e: (IpNet, u32, Seq<char>, Seq<char>),
)
    requires
        wf_records(acc),
        absorbed(acc, Some(e)),
    ensures
        merge_entry(acc, e) == acc,
{
    let k = choose|k: int|
        0 <= k < acc.len() && (#[trigger] acc[k]).1 == e.1 && acc[k].0.contains(e.0);
    assert(has_asn(acc, e.1));
    let k0 = index_of_asn(acc, e.1);
    assert(0 <= k0 < acc.len() && acc[k0].1 == e.1);
    if k != k0 {
        assert(acc[k].1 == acc[k0].1);
        assert(false);
    }
    assert(add_net(acc[k0].0, e.0) == acc[k0].0);
    assert((add_net(acc[k0].0, e.0), acc[k0].1, acc[k0].2, acc[k0].3) == acc[k0]);
    assert(acc.update(k0, acc[k0]) =~= acc);
}

proof fn lemma_aggregate_noop(
    acc: Seq<(Seq<IpNet>, u32, Seq<char>, Seq<char>)>,
    ms: Seq<Option<(IpNet, u32, Seq<char>, Seq<char>)>>,
)
    requires
        wf_records(acc),
        forall|i: int| 0 <= i < ms.len() ==> absorbed(acc, #[trigger] ms[i]),
    ensures
        aggregate_from(acc, ms) == acc,
    decreases ms.len(),
{
    if ms.len() > 0 {
        let d = ms.drop_first();
        assert(forall|i: int| 0 <= i < d.len() ==> #[trigger] d[i] == ms[i + 1]);
        match ms.first() {
            Some(e) => {
                assert(ms[0] == ms.first());
                lemma_merge_noop(acc, e);
                lemma_aggregate_noop(acc, d);
            },
            None => {
                lemma_aggregate_noop(acc, d);
            },
        }
    }
}

proof fn lemma_aggregate_app(
    acc: Seq<(Seq<IpNet>, u32, Seq<char>, Seq<char>)>,
    a: Seq<Option<(IpNet, u32, Seq<char>, Seq<char>)>>,
    b: Seq<Option<(IpNet, u32, Seq<char>, Seq<char>)>>,
)
    ensures
        aggregate_from(acc, a + b) == aggregate_from(aggregate_from(acc, a), b),
    decreases a.len(),
{
    if a.len() == 0 {
        assert(a + b =~= b);
    } else {
        assert((a + b).len() > 0);
        assert((a + b).first() == a.first());
        assert((a + b).drop_first() =~= a.drop_first() + b);
        match a.first() {
            Some(e) => {
                lemma_aggregate_app(merge_entry(acc, e), a.drop_first(), b);
            },
            None => {
                lemma_aggregate_app(acc, a.drop_first(), b);
            },
        }
    }
}

/// Whether some input answer matched this AS number with this network
/// block.
pub open spec fn block_from_inputs(
    ms: Seq<Option<(IpNet, u32, Seq<char>, Seq<char>)>>,
    a: u32,
    n: IpNet,
) -> bool {
    exists|i: int|
        0 <= i < ms.len() && (#[trigger] ms[i]) is Some && (ms[i]->0).1 == a && (ms[i]->0).0 == n
}

proof fn lemma_merge_block_source(
    acc: Seq<(Seq<IpNet>, u32, Seq<char>, Seq<char>)>,
    e: (IpNet, u32, Seq<char>, Seq<char>),
)
    ensures
        forall|k: int, n: IpNet|
            0 <= k < merge_entry(acc, e).len() && #[trigger] merge_entry(acc, e)[k].0.contains(n)
                ==> (exists|k2: int|
                0 <= k2 < acc.len() && (#[trigger] acc[k2]).1 == merge_entry(acc, e)[k].1
                    && acc[k2].0.contains(n)) || (merge_entry(acc, e)[k].1 == e.1 && n == e.0),
{
    let merged = merge_entry(acc, e);
    if has_asn(acc, e.1) {
        let k0 = index_of_asn(acc, e.1);
        assert(0 <= k0 < acc.len() && acc[k0].1 == e.1);
        assert forall|k: int, n: IpNet|
            0 <= k < merged.len() && #[trigger] merged[k].0.contains(n) implies (exists|k2: int|
            0 <= k2 < acc.len() && (#[trigger] acc[k2]).1 == merged[k].1 && acc[k2].0.contains(n))
            || (merged[k].1 == e.1 && n == e.0) by {
            if k == k0 {
                if acc[k0].0.contains(e.0) {
                    assert(acc[k0].1 == merged[k].1 && acc[k0].0.contains(n));
                } else {
                    let j = choose|j: int| 0 <= j < merged[k0].0.len() && merged[k0].0[j] == n;
                    if j < acc[k0].0.len() {
                        assert(acc[k0].0[j] == n);
                        assert(acc[k0].1 == merged[k].1 && acc[k0].0.contains(n));
                    } else {
                        assert(n == e.0);
                    }
                }
            } else {
                assert(merged[k] == acc[k]);
                assert(acc[k].1 == merged[k].1 && acc[k].0.contains(n));
            }
        };
    } else {
        assert forall|k: int, n: IpNet|
            0 <= k < merged.len() && #[trigger] merged[k].0.contains(n) implies (exists|k2: int|
            0 <= k2 < acc.len() && (#[trigger] acc[k2]).1 == merged[k].1 && acc[k2].0.contains(n))
            || (merged[k].1 == e.1 && n == e.0) by {
            if k < acc.len() {
                assert(merged[k] == acc[k]);
                assert(acc[k].1 == merged[k].1 && acc[k].0.contains(n));
            } else {
                assert(merged[k] == (seq![e.0], e.1, e.2, e.3));
                let j = choose|j: int| 0 <= j < merged[k].0.len() && merged[k].0[j] == n;
                assert(n == e.0);
            }
        };
    }
}

proof fn lemma_aggregate_block_source(
    acc: Seq<(Seq<IpNet>, u32, Seq<char>, Seq<char>)>,
    ms: Seq<Option<(IpNet, u32, Seq<char>, Seq<char>)>>,
)
    ensures
        forall|k: int, n: IpNet|
            0 <= k < aggregate_from(acc, ms).len() && #[trigger] aggregate_from(acc, ms)[k].0.contains(
                n,
            ) ==> (exists|k2: int|
                0 <= k2 < acc.len() && (#[trigger] acc[k2]).1 == aggregate_from(acc, ms)[k].1
                    && acc[k2].0.contains(n)) || block_from_inputs(
                ms,
                aggregate_from(acc, ms)[k].1,
                n,
            ),
    decreases ms.len(),
{
    if ms.len() > 0 {
        let agg = aggregate_from(acc, ms);
        let d = ms.drop_first();
        let acc2 = match ms.first() {
            Some(e) => merge_entry(acc, e),
            None => acc,
        };
        lemma_aggregate_block_source(acc2, d);
        assert(agg == aggregate_from(acc2, d));
        assert forall|k: int, n: IpNet|
            0 <= k < agg.len() && #[trigger] agg[k].0.contains(n) implies (exists|k2: int|
            0 <= k2 < acc.len() && (#[trigger] acc[k2]).1 == agg[k].1 && acc[k2].0.contains(n))
            || block_from_inputs(ms, agg[k].1, n) by {
            assert(aggregate_from(acc2, d)[k].0.contains(n));
            if block_from_inputs(d, agg[k].1, n) {
                let i = choose|i: int|
                    0 <= i < d.len() && (#[trigger] d[i]) is Some && (d[i]->0).1 == agg[k].1 && (
                    d[i]->0).0 == n;
                assert(ms[i + 1] == d[i]);
                assert(block_from_inputs(ms, agg[k].1, n));
            } else {
                let k2 = choose|k2: int|
                    0 <= k2 < acc2.len() && (#[trigger] acc2[k2]).1 == agg[k].1 && acc2[k2].0.contains(
                        n,
                    );
                match ms.first() {
                    Some(e) => {
                        lemma_merge_block_source(acc, e);
                        assert(merge_entry(acc, e)[k2].0.contains(n));
                        if merge_entry(acc, e)[k2].1 == e.1 && n == e.0 {
                            assert(ms[0] == ms.first());
                            assert(block_from_inputs(ms, agg[k].1, n));
                        }
                    },
                    None => {},
                }
            }
        };
    }
}

/// Nothing is invented either: every network block listed in the output
/// was the block matched by some input answer carrying the same AS number,
/// so each record's block list is exactly the union of its AS number's
/// matched blocks.
pub proof fn lemma_attribute_blocks_only_from_inputs(
    ms: Seq<Option<(IpNet, u32, Seq<char>, Seq<char>)>>,
)
    ensures
        forall|k: int, n: IpNet|
            0 <= k < spec_attribute(ms).len() && #[trigger] spec_attribute(ms)[k].0.contains(n)
                ==> block_from_inputs(ms, spec_attribute(ms)[k].1, n),
{
    lemma_aggregate_block_source(Seq::empty(), ms);
}

/// At most one record per AS number comes out of the attribution, and the AS
/// numbers of the output are exactly the AS numbers found across the inputs —
/// so the output has as many records as there are distinct matched AS
/// numbers.
pub proof fn lemma_attribute_asns(ms: Seq<Option<(IpNet, u32, Seq<char>, Seq<char>)>>)
    ensures
        wf_records(spec_attribute(ms)),
        output_asns(spec_attribute(ms)) == matched_asns(ms),
{
    assert(wf_records(Seq::empty()));
    lemma_aggregate_wf(Seq::empty(), ms);
    lemma_aggregate_asns(Seq::empty(), ms);
    assert(output_asns(Seq::empty()) =~= Set::<u32>::empty());
    assert(Set::<u32>::empty().union(matched_asns(ms)) =~= matched_asns(ms));
}

/// Every matched CIDR block ends up listed, without duplicates, in the
/// record that carries its AS number: answers that map two addresses to one
/// AS number yield a single record holding both blocks.
pub proof fn lemma_attribute_blocks(ms: Seq<Option<(IpNet, u32, Seq<char>, Seq<char>)>>)
    ensures
        wf_records(spec_attribute(ms)),
        forall|i: int| 0 <= i < ms.len() ==> absorbed(spec_attribute(ms), #[trigger] ms[i]),
{
    assert(wf_records(Seq::empty()));
    lemma_aggregate_wf(Seq::empty(), ms);
    lemma_aggregate_absorbed(Seq::empty(), ms);
}

/// Attributing the same answers twice over changes nothing: the second pass
/// only meets AS numbers and network blocks that the first pass already
/// recorded.
pub proof fn lemma_attribute_idempotent(ms: Seq<Option<(IpNet, u32, Seq<char>, Seq<char>)>>)
    ensures
        spec_attribute(ms + ms) == spec_attribute(ms),
{
    let agg = spec_attribute(ms);
    assert(wf_records(Seq::empty()));
    lemma_aggregate_wf(Seq::empty(), ms);
    lemma_aggregate_absorbed(Seq::empty(), ms);
    lemma_aggregate_app(Seq::empty(), ms, ms);
    lemma_aggregate_noop(agg, ms);
}

/// Idempotence at the address level: looking the same address list up twice
/// over yields exactly the attribution of looking it up once.
pub proof fn lemma_attribute_ips_idempotent(table: IpAsnMap, ips: Seq<IpAddress>)
    ensures
        spec_attribute(lookups(table, ips + ips)) == spec_attribute(lookups(table, ips)),
{
    assert(lookups(table, ips + ips) =~= lookups(table, ips) + lookups(table, ips));
    lemma_attribute_idempotent(lookups(table, ips));
}

/// Deduplicated ASN attribution for a list of addresses: each address is
/// looked up in the table, and the matches are aggregated keyed by AS
/// number, every record unioning the distinct network blocks matched for its
/// AS number. Nothing is returned when no address matched any range.
pub fn lookup_ip(ips: &Vec<IpAddress>, table: &IpAsnMap) -> (r: Option<Vec<Asn>>)
    ensures
        ({
            let agg = spec_attribute(lookups(*table, ips@));
            match r {
                Some(v) => agg.len() > 0 && v@.map_values(|a: Asn| a@) == agg,
                None => agg.len() == 0,
            }
        }),
{
    let ghost all = lookups(*table, ips@);
    let mut acc: Vec<Asn> = Vec::new();
    let mut i: usize = 0;
    proof {
        assert(acc@.map_values(|a: Asn| a@) =~= Seq::empty());
        assert(all.take(0) =~= Seq::empty());
    }
    while i < ips.len()
        invariant
            i <= ips.len(),
            all == lookups(*table, ips@),
            wf_records(acc@.map_values(|a: Asn| a@)),
            acc@.map_values(|a: Asn| a@) == aggregate_from(Seq::empty(), all.take(i as int)),
        decreases ips.len() - i,
    {
        let ghost pre = all.take(i as int);
        let ghost vpre = acc@.map_values(|a: Asn| a@);
        match table_lookup(table, &ips[i]) {
            Some(m) => {
                proof {
                    lemma_aggregate_wf(Seq::empty(), pre);
                }
                merge_match(&mut acc, m);
                proof {
                    lemma_aggregate_snoc(Seq::empty(), pre, entry_for(*table, ips@[i as int]));
                    assert(entry_for(*table, ips@[i as int]) == Some(m@));
                }
            },
            None => {
                proof {
                    lemma_aggregate_snoc(Seq::empty(), pre, entry_for(*table, ips@[i as int]));
                }
            },
        }
        proof {
            assert(all.take(i as int + 1) =~= pre.push(all[i as int]));
            assert(all[i as int] == entry_for(*table, ips@[i as int]));
            lemma_aggregate_wf(Seq::empty(), all.take(i as int + 1));
        }
        i += 1;
    }
    proof {
        assert(all.take(ips@.len() as int) =~= all);
    }
    if acc.len() == 0 {
        proof {
            assert(acc@.map_values(|a: Asn| a@) =~= Seq::empty());
        }
        None
    } else {
        Some(acc)
    }
}

} // verus!
