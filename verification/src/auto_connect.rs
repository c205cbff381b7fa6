//! Automatic node filtering and deterministic best-bandwidth selection.

use vstd::prelude::*;

use crate::automatic_tests::listed;
use crate::domain::{
    AutoConnectConfig, IpTypeFilter, NodeAvailability, NodeId, ResidentialFilter, TestRecord,
    VpnNode,
};
use crate::text::{chars_eq, chars_less, chars_lt, lemma_chars_less_order, lowercase, str_chars, to_ascii_lowercase};

verus! {

/// `str::eq_ignore_ascii_case`.
pub open spec fn eq_ignore_ascii_case(a: Seq<char>, b: Seq<char>) -> bool {
    to_ascii_lowercase(a) == to_ascii_lowercase(b)
}

/// The configured region, if any, equals the node's country code up to ASCII case.
pub open spec fn region_matches(n: VpnNode, config: AutoConnectConfig) -> bool {
    match config.region {
        None => true,
        Some(r) => eq_ignore_ascii_case(n.country_short@, r@),
    }
}

/// The first stored test record for a node.
pub open spec fn test_for(tests: Seq<TestRecord>, id: Seq<char>, i: int) -> Option<TestRecord>
    decreases tests.len() - i,
{
    if i < 0 || i >= tests.len() {
        None
    } else if tests[i].node_id@ == id {
        Some(tests[i])
    } else {
        test_for(tests, id, i + 1)
    }
}

/// IP-type and residential filters; any filter other than `Any` needs a
/// successful quality result.
pub open spec fn traits_match(record: Option<TestRecord>, config: AutoConnectConfig) -> bool {
    if config.ip_type == IpTypeFilter::Any && config.residential == ResidentialFilter::Any {
        true
    } else {
        match record {
            Some(rec) => match rec.result {
                Some(result) => {
                    &&& match config.ip_type {
                        IpTypeFilter::Any => true,
                        IpTypeFilter::Native => !result.is_broadcast,
                        IpTypeFilter::Broadcast => result.is_broadcast,
                    }
                    &&& match config.residential {
                        ResidentialFilter::Any => true,
                        ResidentialFilter::Residential => result.is_residential,
                        ResidentialFilter::NonResidential => !result.is_residential,
                    }
                },
                None => false,
            },
            None => false,
        }
    }
}

/// A node that automatic connection may choose.
pub open spec fn selectable(n: VpnNode, tests: Seq<TestRecord>, config: AutoConnectConfig, excluded: Seq<NodeId>) -> bool {
    &&& n.availability == NodeAvailability::Available
    &&& !listed(excluded, n.id@)
    &&& region_matches(n, config)
    &&& traits_match(test_for(tests, n.id@, 0), config)
}

pub open spec fn ping_key(p: Option<u32>) -> u32 {
    match p {
        Some(v) => v,
        None => u32::MAX,
    }
}

/// `a` is strictly preferred: more bandwidth, then higher score, then lower
/// ping (unmeasured counts as the maximum), then the smaller id.
pub open spec fn preferred(a: VpnNode, b: VpnNode) -> bool {
    ||| a.speed_bps > b.speed_bps
    ||| a.speed_bps == b.speed_bps && a.score > b.score
    ||| a.speed_bps == b.speed_bps && a.score == b.score && ping_key(a.ping_ms) < ping_key(b.ping_ms)
    ||| a.speed_bps == b.speed_bps && a.score == b.score && ping_key(a.ping_ms) == ping_key(b.ping_ms)
        && chars_less(a.id@, b.id@)
}

/// `preferred` is a strict total order on the selection keys.
pub proof fn lemma_preferred_order(a: VpnNode, b: VpnNode, c: VpnNode)
    ensures
        !preferred(a, a),
        preferred(a, b) ==> !preferred(b, a),
        preferred(a, b) && preferred(b, c) ==> preferred(a, c),
        !preferred(a, b) && !preferred(b, a) ==> a.id@ == b.id@ && (preferred(a, c) == preferred(b, c))
            && (preferred(c, a) == preferred(c, b)),
{
    lemma_chars_less_order(a.id@, b.id@, c.id@);
}

fn matches_region(node: &VpnNode, config: &AutoConnectConfig) -> (r: bool)
    ensures
        r == region_matches(*node, *config),
{
    match &config.region {
        None => true,
        Some(region) => {
            let a = lowercase(str_chars(node.country_short.as_str()).as_slice());
            let b = lowercase(str_chars(region.as_str()).as_slice());
            chars_eq(a.as_slice(), b.as_slice())
        },
    }
}

pub(crate) fn find_test<'a>(tests: &'a [TestRecord], id: &NodeId) -> (r: Option<&'a TestRecord>)
    ensures
        match test_for(tests@, id@, 0) {
            Some(t) => r == Some(&t),
            None => r is None,
        },
{
    let mut i: usize = 0;
    while i < tests.len()
        invariant
            i <= tests@.len(),
            test_for(tests@, id@, 0) == test_for(tests@, id@, i as int),
        decreases tests.len() - i,
    {
        if tests[i].node_id.same(id) {
            return Some(&tests[i]);
        }
        i = i + 1;
    }
    None
}

fn matches_ip_traits(record: Option<&TestRecord>, config: &AutoConnectConfig) -> (r: bool)
    ensures
        r == traits_match(
            match record {
                Some(t) => Some(*t),
                None => None,
            },
            *config,
        ),
{
    if config.ip_type == IpTypeFilter::Any && config.residential == ResidentialFilter::Any {
        return true;
    }
    let result = match record {
        Some(rec) => match &rec.result {
            Some(res) => res,
            None => {
                return false;
            },
        },
        None => {
            return false;
        },
    };
    let ip_type_matches = match config.ip_type {
        IpTypeFilter::Any => true,
        IpTypeFilter::Native => !result.is_broadcast,
        IpTypeFilter::Broadcast => result.is_broadcast,
    };
    let residential_matches = match config.residential {
        ResidentialFilter::Any => true,
        ResidentialFilter::Residential => result.is_residential,
        ResidentialFilter::NonResidential => !result.is_residential,
    };
    ip_type_matches && residential_matches
}

fn is_excluded(excluded: &[NodeId], id: &NodeId) -> (r: bool)
    ensures
        r == listed(excluded@, id@),
{
    let mut k: usize = 0;
    while k < excluded.len()
        invariant
            k <= excluded@.len(),
            forall|m: int| 0 <= m < k ==> (#[trigger] excluded@[m])@ != id@,
        decreases excluded.len() - k,
    {
        if excluded[k].same(id) {
            return true;
        }
        k = k + 1;
    }
    false
}

fn is_selectable(node: &VpnNode, tests: &[TestRecord], config: &AutoConnectConfig, excluded: &[NodeId]) -> (r: bool)
    ensures
        r == selectable(*node, tests@, *config, excluded@),
{
    node.availability == NodeAvailability::Available && !is_excluded(excluded, &node.id)
        && matches_region(node, config) && matches_ip_traits(find_test(tests, &node.id), config)
}

fn is_preferred(a: &VpnNode, b: &VpnNode) -> (r: bool)
    ensures
        r == preferred(*a, *b),
{
    if a.speed_bps != b.speed_bps {
        return a.speed_bps > b.speed_bps;
    }
    if a.score != b.score {
        return a.score > b.score;
    }
    let pa = match a.ping_ms {
        Some(v) => v,
        None => u32::MAX,
    };
    let pb = match b.ping_ms {
        Some(v) => v,
        None => u32::MAX,
    };
    if pa != pb {
        return pa < pb;
    }
    let left = str_chars(a.id.as_str());
    let right = str_chars(b.id.as_str());
    chars_lt(left.as_slice(), right.as_slice())
}

/// Selects the highest-bandwidth usable node matching the configured region
/// and IP traits. `tests` holds the latest test record of each node and
/// `excluded` the nodes that recently failed.
pub fn select_node(nodes: &[VpnNode], tests: &[TestRecord], config: &AutoConnectConfig, excluded: &[NodeId]) -> (r: Option<NodeId>)
    ensures
        r is None <==> forall|i: int| 0 <= i < nodes@.len() ==> !#[trigger] selectable(nodes@[i], tests@, *config, excluded@),
        r matches Some(id) ==> exists|i: int|
            0 <= i < nodes@.len() && #[trigger] selectable(nodes@[i], tests@, *config, excluded@)
                && nodes@[i].id@ == id@
                && forall|j: int| 0 <= j < nodes@.len() && selectable(nodes@[j], tests@, *config, excluded@)
                    ==> !#[trigger] preferred(nodes@[j], nodes@[i]),
{
    let mut best: Option<usize> = None;
    let mut i: usize = 0;
    while i < nodes.len()
        invariant
            i <= nodes@.len(),
            best is None <==> forall|k: int| 0 <= k < i ==> !#[trigger] selectable(nodes@[k], tests@, *config, excluded@),
            best matches Some(b) ==> b < i && selectable(nodes@[b as int], tests@, *config, excluded@)
                && forall|k: int| 0 <= k < i && selectable(nodes@[k], tests@, *config, excluded@)
                    ==> !#[trigger] preferred(nodes@[k], nodes@[b as int]),
        decreases nodes.len() - i,
    {
        if is_selectable(&nodes[i], tests, config, excluded) {
            let take = match best {
                None => true,
                Some(b) => !is_preferred(&nodes[b], &nodes[i]),
            };
            if take {
                proof {
                    if let Some(b) = best {
                        let nb = nodes@[b as int];
                        let ni = nodes@[i as int];
                        assert forall|k: int| 0 <= k < i + 1 && selectable(nodes@[k], tests@, *config, excluded@)
                            implies !#[trigger] preferred(nodes@[k], ni) by {
                            lemma_preferred_order(nodes@[k], nb, ni);
                            lemma_preferred_order(nb, nodes@[k], ni);
                            lemma_preferred_order(ni, ni, ni);
                        }
                    } else {
                        lemma_preferred_order(nodes@[i as int], nodes@[i as int], nodes@[i as int]);
                    }
                }
                best = Some(i);
            } else {
                proof {
                    let b = best.unwrap();
                    lemma_preferred_order(nodes@[b as int], nodes@[i as int], nodes@[i as int]);
                }
            }
        }
        i = i + 1;
    }
    match best {
        Some(b) => Some(nodes[b].id.duplicate()),
        None => None,
    }
}


/// With a configured region and no IP filter, an available node that is not
/// excluded is eligible exactly when its country code equals the region up to
/// ASCII case; its long country name plays no part.
pub proof fn region_filter_uses_country_code(n: VpnNode, long_name: String, tests: Seq<TestRecord>, config: AutoConnectConfig,
    excluded: Seq<NodeId>, r: String)
    requires
        config.region == Some(r),
        config.ip_type == IpTypeFilter::Any,
        config.residential == ResidentialFilter::Any,
        n.availability == NodeAvailability::Available,
        !listed(excluded, n.id@),
    ensures
        selectable(n, tests, config, excluded) <==> to_ascii_lowercase(n.country_short@) == to_ascii_lowercase(r@),
        selectable(VpnNode { country_long: long_name, ..n }, tests, config, excluded) == selectable(n, tests, config, excluded),
{
}
} // verus!
