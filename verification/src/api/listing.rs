//! The node list of the Web API: query checks, listing order and pages.

use vstd::prelude::*;
use vstd::seq_lib::group_to_multiset_ensures;

use crate::api::ApiError;
use crate::auto_connect::{find_test, test_for};
use crate::domain::{node_matches, NodeSummary, TestRecord, VpnNode};
use crate::text::{byte_len, byte_len_of, chars_less, chars_lt, lemma_chars_less_order, str_chars};

verus! {

broadcast use vstd::multiset::group_multiset_axioms, group_to_multiset_ensures;

/// The field that orders the node list.
#[derive(Clone, Copy, PartialEq, Eq, Structural, Debug)]
pub enum SortKey {
    Score,
    Ping,
    Speed,
    Sessions,
}

impl Default for SortKey {
    fn default() -> (r: SortKey)
        ensures
            r == SortKey::Score,
    {
        SortKey::Score
    }
}

/// The direction of the node list.
#[derive(Clone, Copy, PartialEq, Eq, Structural, Debug)]
pub enum SortOrder {
    Asc,
    Desc,
}

impl Default for SortOrder {
    fn default() -> (r: SortOrder)
        ensures
            r == SortOrder::Desc,
    {
        SortOrder::Desc
    }
}

/// Query of the node list: 1-based page, page size, free-text search and order.
#[derive(Debug)]
pub struct NodesQuery {
    pub page: usize,
    pub page_size: usize,
    pub search: String,
    pub sort: SortKey,
    pub order: SortOrder,
}

/// One page of the node list and the number of nodes that match the search.
#[derive(Debug)]
pub struct NodesPage {
    pub items: Vec<NodeSummary>,
    pub page: usize,
    pub page_size: usize,
    pub total: usize,
}

/// A page number from 1, a page size from 1 to 200 and a search of at most
/// 256 bytes.
pub open spec fn query_valid(q: NodesQuery) -> bool {
    &&& q.page != 0
    &&& 1 <= q.page_size <= 200
    &&& byte_len(q.search@) <= 256
}

/// Sorting by ping puts measured nodes before unmeasured ones in both directions.
pub open spec fn ping_group(n: VpnNode, key: SortKey) -> int {
    if key == SortKey::Ping && n.ping_ms is None {
        1
    } else {
        0
    }
}

/// The value that the key selects.
pub open spec fn sort_measure(n: VpnNode, key: SortKey) -> int {
    match key {
        SortKey::Score => n.score as int,
        SortKey::Ping => match n.ping_ms {
            Some(p) => p as int,
            None => 0,
        },
        SortKey::Speed => n.speed_bps as int,
        SortKey::Sessions => n.sessions as int,
    }
}

/// The value in the requested direction: ascending order sorts it upwards.
pub open spec fn directed(n: VpnNode, key: SortKey, order: SortOrder) -> int {
    if order == SortOrder::Asc {
        sort_measure(n, key)
    } else {
        -sort_measure(n, key)
    }
}

/// `a` is listed before `b`: ping group, then the key in the requested
/// direction, then the node id.
pub open spec fn node_before(a: VpnNode, b: VpnNode, key: SortKey, order: SortOrder) -> bool {
    ||| ping_group(a, key) < ping_group(b, key)
    ||| ping_group(a, key) == ping_group(b, key) && directed(a, key, order) < directed(b, key, order)
    ||| ping_group(a, key) == ping_group(b, key) && directed(a, key, order) == directed(b, key, order)
        && chars_less(a.id@, b.id@)
}

/// Neither node is listed before the other.
pub open spec fn node_tied(a: VpnNode, b: VpnNode, key: SortKey, order: SortOrder) -> bool {
    &&& ping_group(a, key) == ping_group(b, key)
    &&& directed(a, key, order) == directed(b, key, order)
    &&& a.id@ == b.id@
}

/// `node_before` is a strict order whose ties share the key and the id.
pub proof fn lemma_node_order(a: VpnNode, b: VpnNode, c: VpnNode, key: SortKey, order: SortOrder)
    ensures
        !node_before(a, a, key, order),
        node_before(a, b, key, order) ==> !node_before(b, a, key, order),
        node_before(a, b, key, order) && node_before(b, c, key, order) ==> node_before(a, c, key, order),
        !node_before(a, b, key, order) && !node_before(b, a, key, order) <==> node_tied(a, b, key, order),
        node_tied(a, b, key, order) ==> (node_before(a, c, key, order) == node_before(b, c, key, order))
            && (node_before(c, a, key, order) == node_before(c, b, key, order)),
{
    lemma_chars_less_order(a.id@, b.id@, c.id@);
    lemma_chars_less_order(a.id@, a.id@, a.id@);
    lemma_chars_less_order(b.id@, a.id@, c.id@);
}

/// Index `i` is listed before index `j`: its node is, or the nodes tie and
/// `i` came first (the sort is stable).
pub open spec fn lists_before(nodes: Seq<VpnNode>, key: SortKey, order: SortOrder, i: int, j: int) -> bool {
    ||| node_before(nodes[i], nodes[j], key, order)
    ||| !node_before(nodes[j], nodes[i], key, order) && i < j
}

proof fn lemma_lists_order(nodes: Seq<VpnNode>, key: SortKey, order: SortOrder, a: int, b: int, c: int)
    ensures
        !lists_before(nodes, key, order, a, a),
        lists_before(nodes, key, order, a, b) ==> !lists_before(nodes, key, order, b, a),
        lists_before(nodes, key, order, a, b) && lists_before(nodes, key, order, b, c)
            ==> lists_before(nodes, key, order, a, c),
{
    lemma_node_order(nodes[a], nodes[b], nodes[c], key, order);
    lemma_node_order(nodes[b], nodes[c], nodes[a], key, order);
    lemma_node_order(nodes[a], nodes[c], nodes[b], key, order);
    lemma_node_order(nodes[c], nodes[a], nodes[b], key, order);
}

/// No index is listed before one that precedes it.
pub open spec fn in_listing_order(nodes: Seq<VpnNode>, s: Seq<usize>, key: SortKey, order: SortOrder) -> bool {
    &&& forall|i: int| 0 <= i < s.len() ==> #[trigger] s[i] < nodes.len()
    &&& forall|i: int, j: int| 0 <= i < j < s.len() ==> !lists_before(nodes, key, order, #[trigger] s[j] as int, #[trigger] s[i] as int)
}

/// The indices of the first `n` nodes that match the search, in input order.
pub open spec fn matching(nodes: Seq<VpnNode>, search: Seq<char>, n: int) -> Seq<usize>
    decreases n,
{
    if n <= 0 {
        Seq::empty()
    } else {
        let rest = matching(nodes, search, n - 1);
        if node_matches(nodes[n - 1], search) {
            rest.push((n - 1) as usize)
        } else {
            rest
        }
    }
}

/// Nodes skipped before the page: `(page - 1) * page_size`, saturating.
pub open spec fn page_offset(q: NodesQuery) -> int {
    let o = (q.page - 1) * q.page_size;
    if o <= usize::MAX {
        o
    } else {
        usize::MAX as int
    }
}

/// Number of listed nodes on a page.
pub open spec fn page_len(total: int, offset: int, size: int) -> int {
    if offset >= total {
        0
    } else if total - offset < size {
        total - offset
    } else {
        size
    }
}

/// The same record, as far as a summary shows it.
pub open spec fn same_test(a: Option<TestRecord>, b: Option<TestRecord>) -> bool {
    match (a, b) {
        (Some(x), Some(y)) => x@ == y@,
        (None, None) => true,
        _ => false,
    }
}

/// `s` is the public summary of `n` with its latest test `t`.
pub open spec fn summarizes(s: NodeSummary, n: VpnNode, t: Option<TestRecord>) -> bool {
    &&& s.id@ == n.id@
    &&& s.hostname == n.hostname
    &&& s.ip == n.ip
    &&& s.score == n.score
    &&& s.ping_ms == n.ping_ms
    &&& s.speed_bps == n.speed_bps
    &&& s.country_long == n.country_long
    &&& s.country_short == n.country_short
    &&& s.sessions == n.sessions
    &&& s.uptime_ms == n.uptime_ms
    &&& s.total_users == n.total_users
    &&& s.total_traffic_bytes == n.total_traffic_bytes
    &&& s.log_type == n.log_type
    &&& s.operator == n.operator
    &&& s.message == n.message
    &&& s.tcp_port == n.tcp_port
    &&& s.availability == n.availability
    &&& same_test(s.latest_test, t)
}

/// The page holds, for the nodes that match the search put in listing order,
/// the summaries of those after the offset, at most a page size of them; the
/// total counts all that match.
pub open spec fn listing_page(nodes: Seq<VpnNode>, tests: Seq<TestRecord>, q: NodesQuery, p: NodesPage) -> bool {
    exists|s: Seq<usize>|
        {
            &&& s.to_multiset() == matching(nodes, q.search@, nodes.len() as int).to_multiset()
            &&& in_listing_order(nodes, s, q.sort, q.order)
            &&& p.total == s.len()
            &&& p.items@.len() == page_len(s.len() as int, page_offset(q), q.page_size as int)
            &&& forall|k: int| 0 <= k < p.items@.len() ==> summarizes(
                #[trigger] p.items@[k],
                nodes[s[page_offset(q) + k] as int],
                test_for(tests, nodes[s[page_offset(q) + k] as int].id@, 0),
            )
        }
}

fn measure_of(n: &VpnNode, key: SortKey) -> (r: u64)
    ensures
        r as int == sort_measure(*n, key),
{
    match key {
        SortKey::Score => n.score,
        SortKey::Ping => match n.ping_ms {
            Some(p) => p as u64,
            None => 0,
        },
        SortKey::Speed => n.speed_bps,
        SortKey::Sessions => n.sessions as u64,
    }
}

/// Whether `left` is listed before `right`.
pub fn node_sorts_before(left: &VpnNode, right: &VpnNode, key: SortKey, order: SortOrder) -> (r: bool)
    ensures
        r == node_before(*left, *right, key, order),
{
    if key == SortKey::Ping {
        match (left.ping_ms, right.ping_ms) {
            (Some(_), None) => {
                return true;
            },
            (None, Some(_)) => {
                return false;
            },
            _ => {},
        }
    }
    let a = measure_of(left, key);
    let b = measure_of(right, key);
    let (x, y) = match order {
        SortOrder::Asc => (a, b),
        SortOrder::Desc => (b, a),
    };
    if x != y {
        return x < y;
    }
    let li = str_chars(left.id.as_str());
    let ri = str_chars(right.id.as_str());
    chars_lt(li.as_slice(), ri.as_slice())
}

/// Three-way comparison of the node list order.
pub fn compare_nodes(left: &VpnNode, right: &VpnNode, key: SortKey, order: SortOrder) -> (r: std::cmp::Ordering)
    ensures
        match r {
            std::cmp::Ordering::Less => node_before(*left, *right, key, order),
            std::cmp::Ordering::Equal => node_tied(*left, *right, key, order),
            std::cmp::Ordering::Greater => node_before(*right, *left, key, order),
        },
{
    proof {
        lemma_node_order(*left, *right, *left, key, order);
    }
    if node_sorts_before(left, right, key, order) {
        std::cmp::Ordering::Less
    } else if node_sorts_before(right, left, key, order) {
        std::cmp::Ordering::Greater
    } else {
        std::cmp::Ordering::Equal
    }
}

fn lists_before_exec(nodes: &[VpnNode], key: SortKey, order: SortOrder, i: usize, j: usize) -> (r: bool)
    requires
        i < nodes@.len(),
        j < nodes@.len(),
    ensures
        r == lists_before(nodes@, key, order, i as int, j as int),
{
    node_sorts_before(&nodes[i], &nodes[j], key, order)
        || (!node_sorts_before(&nodes[j], &nodes[i], key, order) && i < j)
}

proof fn lemma_empty_multiset<A>(s: Seq<A>)
    requires
        s.len() == 0,
    ensures
        s.to_multiset() =~= vstd::multiset::Multiset::empty(),
{
    assert forall|a: A| s.to_multiset().count(a) == 0 by {
        assert(!s.contains(a));
    }
}

/// The indices of the nodes that match the search, in listing order.
fn listing_order(nodes: &[VpnNode], search: &str, key: SortKey, order: SortOrder) -> (r: Vec<usize>)
    ensures
        r@.to_multiset() == matching(nodes@, search@, nodes@.len() as int).to_multiset(),
        in_listing_order(nodes@, r@, key, order),
{
    let mut ordered: Vec<usize> = Vec::new();
    let mut k: usize = 0;
    proof {
        lemma_empty_multiset(ordered@);
        lemma_empty_multiset(matching(nodes@, search@, 0));
    }
    while k < nodes.len()
        invariant
            k <= nodes@.len(),
            ordered@.to_multiset() == matching(nodes@, search@, k as int).to_multiset(),
            in_listing_order(nodes@, ordered@, key, order),
            forall|i: int| 0 <= i < ordered@.len() ==> #[trigger] ordered@[i] < k,
        decreases nodes.len() - k,
    {
        if nodes[k].matches_search(search) {
            let mut p: usize = 0;
            while p < ordered.len() && !lists_before_exec(nodes, key, order, k, ordered[p])
                invariant
                    k < nodes@.len(),
                    p <= ordered@.len(),
                    in_listing_order(nodes@, ordered@, key, order),
                    forall|m: int| 0 <= m < p ==> !lists_before(nodes@, key, order, k as int, #[trigger] ordered@[m] as int),
                decreases ordered.len() - p,
            {
                p = p + 1;
            }
            let ghost old_ordered = ordered@;
            ordered.insert(p, k);
            proof {
                let nv = ordered@;
                let ns = nodes@;
                assert(nv =~= old_ordered.insert(p as int, k));
                assert forall|i: int| 0 <= i < nv.len() implies #[trigger] nv[i] < ns.len() by {
                    if i < p {
                        assert(nv[i] == old_ordered[i]);
                    } else if i > p {
                        assert(nv[i] == old_ordered[i - 1]);
                    }
                }
                assert forall|i: int, j: int| 0 <= i < j < nv.len()
                    implies !lists_before(ns, key, order, #[trigger] nv[j] as int, #[trigger] nv[i] as int) by {
                    if i == p {
                        let w = old_ordered[j - 1];
                        lemma_lists_order(ns, key, order, w as int, k as int, old_ordered[p as int] as int);
                        if j - 1 > p {
                            assert(!lists_before(ns, key, order, old_ordered[j - 1] as int, old_ordered[p as int] as int));
                        }
                    } else if j == p {
                        assert(!lists_before(ns, key, order, k as int, old_ordered[i] as int));
                    } else if i < p && j < p {
                        assert(!lists_before(ns, key, order, old_ordered[j] as int, old_ordered[i] as int));
                    } else if i < p {
                        assert(!lists_before(ns, key, order, old_ordered[j - 1] as int, old_ordered[i] as int));
                    } else {
                        assert(!lists_before(ns, key, order, old_ordered[j - 1] as int, old_ordered[i - 1] as int));
                    }
                }
                assert(nv.to_multiset() == old_ordered.to_multiset().insert(k));
                assert(matching(ns, search@, k + 1) == matching(ns, search@, k as int).push(k));
                assert(matching(ns, search@, k + 1).to_multiset()
                    =~= matching(ns, search@, k as int).to_multiset().insert(k));
            }
        } else {
            assert(matching(nodes@, search@, k + 1) == matching(nodes@, search@, k as int));
        }
        k = k + 1;
    }
    ordered
}

/// The latest test of a node, if one is stored.
fn latest_test_of(tests: &[TestRecord], node: &VpnNode) -> (r: Option<TestRecord>)
    ensures
        same_test(r, test_for(tests@, node.id@, 0)),
{
    match find_test(tests, &node.id) {
        Some(t) => Some(t.duplicate()),
        None => None,
    }
}

/// Checks the query, then lists the nodes that match the search: sorted by
/// the chosen key and direction (nodes without ping last when sorting by
/// ping, ties by node id, then in catalog order), the requested page of
/// their summaries with each node's latest test, and how many matched.
pub fn list_nodes(nodes: &[VpnNode], tests: &[TestRecord], query: &NodesQuery) -> (r: Result<NodesPage, ApiError>)
    ensures
        !query_valid(*query) ==> (r matches Err(e) && e.status == 400 && e.code@ == "invalidPagination"@
            && e.message@ == "分页或搜索参数无效"@),
        query_valid(*query) ==> (r matches Ok(p) && p.page == query.page && p.page_size == query.page_size
            && listing_page(nodes@, tests@, *query, p)),
{
    let search = str_chars(query.search.as_str());
    if query.page == 0 || query.page_size < 1 || query.page_size > 200 || byte_len_of(search.as_slice()) > 256 {
        return Err(ApiError::new(400, "invalidPagination", "分页或搜索参数无效"));
    }
    let ordered = listing_order(nodes, query.search.as_str(), query.sort, query.order);
    let total = ordered.len();
    let offset: usize = match (query.page - 1).checked_mul(query.page_size) {
        Some(v) => v,
        None => usize::MAX,
    };
    let ghost s = ordered@;
    assert(offset as int == page_offset(*query));
    let count: usize = if offset >= total {
        0
    } else if total - offset < query.page_size {
        total - offset
    } else {
        query.page_size
    };
    let mut items: Vec<NodeSummary> = Vec::new();
    let mut j: usize = 0;
    while j < count
        invariant
            j <= count,
            count == page_len(total as int, offset as int, query.page_size as int),
            count > 0 ==> offset + count <= total,
            total == s.len(),
            s == ordered@,
            in_listing_order(nodes@, s, query.sort, query.order),
            offset as int == page_offset(*query),
            items@.len() == j,
            forall|k: int| 0 <= k < items@.len() ==> summarizes(
                #[trigger] items@[k],
                nodes@[s[page_offset(*query) + k] as int],
                test_for(tests@, nodes@[s[page_offset(*query) + k] as int].id@, 0),
            ),
        decreases count - j,
    {
        let n = &nodes[ordered[offset + j]];
        let latest = latest_test_of(tests, n);
        items.push(n.summary(latest));
        j = j + 1;
    }
    let page = NodesPage { items, page: query.page, page_size: query.page_size, total };
    assert({
        &&& s.to_multiset() == matching(nodes@, query.search@, nodes@.len() as int).to_multiset()
        &&& in_listing_order(nodes@, s, query.sort, query.order)
        &&& page.total == s.len()
        &&& page.items@.len() == page_len(s.len() as int, page_offset(*query), query.page_size as int)
        &&& forall|k: int| 0 <= k < page.items@.len() ==> summarizes(
            #[trigger] page.items@[k],
            nodes@[s[page_offset(*query) + k] as int],
            test_for(tests@, nodes@[s[page_offset(*query) + k] as int].id@, 0),
        )
    });
    Ok(page)
}

} // verus!
