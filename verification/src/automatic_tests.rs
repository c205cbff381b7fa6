//! Selection policy for automatic quality tests.

use vstd::prelude::*;
use vstd::multiset::Multiset;
use vstd::seq_lib::group_to_multiset_ensures;

use crate::domain::{NodeAvailability, NodeId, VpnNode};
use crate::text::{chars_less, chars_lt, lemma_chars_less_order, str_chars};

verus! {

broadcast use vstd::multiset::group_multiset_axioms, group_to_multiset_ensures;

/// Minimal node data needed by the automatic-test policy.
#[derive(Clone, Debug)]
pub struct AutomaticTestCandidate {
    pub node_id: NodeId,
    pub score: u64,
    pub ping_ms: Option<u32>,
    pub eligible: bool,
}

impl AutomaticTestCandidate {
    /// The candidate for a catalog node: it is eligible when the node is
    /// available and carries a sanitized OpenVPN profile.
    pub fn from_node(node: &VpnNode) -> (r: AutomaticTestCandidate)
        ensures
            r.node_id@ == node.id@,
            r.score == node.score,
            r.ping_ms == node.ping_ms,
            r.eligible == (node.availability == NodeAvailability::Available && node.openvpn is Some),
    {
        AutomaticTestCandidate {
            node_id: node.id.duplicate(),
            score: node.score,
            ping_ms: node.ping_ms,
            eligible: node.availability == NodeAvailability::Available && node.openvpn.is_some(),
        }
    }
}

/// A measured ping comes before a slower one, and any ping before none.
pub open spec fn ping_before(a: Option<u32>, b: Option<u32>) -> bool {
    match (a, b) {
        (Some(x), Some(y)) => x < y,
        (Some(_), None) => true,
        _ => false,
    }
}

/// Quality order: higher score first, then lower ping (unmeasured last), then
/// node id.
pub open spec fn ranks_before(a: AutomaticTestCandidate, b: AutomaticTestCandidate) -> bool {
    ||| a.score > b.score
    ||| a.score == b.score && ping_before(a.ping_ms, b.ping_ms)
    ||| a.score == b.score && a.ping_ms == b.ping_ms && chars_less(a.node_id@, b.node_id@)
}

/// No candidate is ranked before one that precedes it.
pub open spec fn ranked(s: Seq<AutomaticTestCandidate>) -> bool {
    forall|i: int, j: int| 0 <= i < j < s.len() ==> !#[trigger] ranks_before(s[j], s[i])
}

pub open spec fn listed(ids: Seq<NodeId>, id: Seq<char>) -> bool {
    exists|k: int| 0 <= k < ids.len() && (#[trigger] ids[k])@ == id
}

/// Eligible and neither tested nor already queued or running.
pub open spec fn wanted(c: AutomaticTestCandidate, tested: Seq<NodeId>, known: Seq<NodeId>) -> bool {
    c.eligible && !listed(tested, c.node_id@) && !listed(known, c.node_id@)
}

/// The wanted candidates, in input order.
pub open spec fn pending(
    candidates: Seq<AutomaticTestCandidate>,
    tested: Seq<NodeId>,
    known: Seq<NodeId>,
) -> Seq<AutomaticTestCandidate>
    decreases candidates.len(),
{
    if candidates.len() == 0 {
        Seq::empty()
    } else {
        let rest = pending(candidates.drop_last(), tested, known);
        if wanted(candidates.last(), tested, known) {
            rest.push(candidates.last())
        } else {
            rest
        }
    }
}

/// `ranks_before` is a strict order.
pub proof fn lemma_ranks_order(a: AutomaticTestCandidate, b: AutomaticTestCandidate, c: AutomaticTestCandidate)
    ensures
        !ranks_before(a, a),
        ranks_before(a, b) ==> !ranks_before(b, a),
        ranks_before(a, b) && ranks_before(b, c) ==> ranks_before(a, c),
{
    lemma_chars_less_order(a.node_id@, b.node_id@, c.node_id@);
}

proof fn lemma_empty_multiset<A>(s: Seq<A>)
    requires
        s.len() == 0,
    ensures
        s.to_multiset() =~= Multiset::empty(),
{
    assert forall|a: A| s.to_multiset().count(a) == 0 by {
        assert(!s.contains(a));
    }
}

fn is_listed(ids: &[NodeId], id: &NodeId) -> (r: bool)
    ensures
        r == listed(ids@, id@),
{
    let mut k: usize = 0;
    while k < ids.len()
        invariant
            k <= ids@.len(),
            forall|m: int| 0 <= m < k ==> (#[trigger] ids@[m])@ != id@,
        decreases ids.len() - k,
    {
        if ids[k].same(id) {
            return true;
        }
        k = k + 1;
    }
    false
}

fn ranks_before_exec(a: &AutomaticTestCandidate, b: &AutomaticTestCandidate) -> (r: bool)
    ensures
        r == ranks_before(*a, *b),
{
    if a.score != b.score {
        return a.score > b.score;
    }
    match (a.ping_ms, b.ping_ms) {
        (Some(x), Some(y)) => {
            if x != y {
                return x < y;
            }
        },
        (Some(_), None) => {
            return true;
        },
        (None, Some(_)) => {
            return false;
        },
        (None, None) => {},
    }
    let left = str_chars(a.node_id.as_str());
    let right = str_chars(b.node_id.as_str());
    chars_lt(left.as_slice(), right.as_slice())
}

/// Chooses untested eligible nodes, best first, up to `limit` (the queue's
/// free capacity). The result is the node ids of the first `limit` wanted
/// candidates once these are put in quality order.
pub fn select_automatic_tests(
    candidates: Vec<AutomaticTestCandidate>,
    tested: &[NodeId],
    known: &[NodeId],
    limit: usize,
) -> (r: Vec<NodeId>)
    ensures
        exists|s: Seq<AutomaticTestCandidate>|
            {
                &&& s.to_multiset() == pending(candidates@, tested@, known@).to_multiset()
                &&& ranked(s)
                &&& r@.len() == (if limit < s.len() { limit as int } else { s.len() as int })
                &&& forall|i: int| 0 <= i < r@.len() ==> (#[trigger] r@[i])@ == s[i].node_id@
            },
{
    let ghost all = candidates@;
    let mut rest = candidates;
    let mut ordered: Vec<AutomaticTestCandidate> = Vec::new();
    proof {
        lemma_empty_multiset(ordered@);
        assert(ordered@.to_multiset().add(pending(rest@, tested@, known@).to_multiset())
            =~= pending(all, tested@, known@).to_multiset());
    }
    while rest.len() > 0
        invariant
            ranked(ordered@),
            ordered@.to_multiset().add(pending(rest@, tested@, known@).to_multiset())
                == pending(all, tested@, known@).to_multiset(),
        decreases rest.len(),
    {
        let ghost before = rest@;
        let c = rest.pop().unwrap();
        assert(before.drop_last() =~= rest@);
        assert(before.last() == c);
        if c.eligible && !is_listed(tested, &c.node_id) && !is_listed(known, &c.node_id) {
            let mut p: usize = 0;
            while p < ordered.len() && !ranks_before_exec(&c, &ordered[p])
                invariant
                    p <= ordered@.len(),
                    forall|k: int| 0 <= k < p ==> !#[trigger] ranks_before(c, ordered@[k]),
                decreases ordered.len() - p,
            {
                p = p + 1;
            }
            let ghost old_ordered = ordered@;
            ordered.insert(p, c);
            proof {
                let nv = ordered@;
                assert(nv =~= old_ordered.insert(p as int, c));
                assert forall|i: int, j: int| 0 <= i < j < nv.len() implies !#[trigger] ranks_before(nv[j], nv[i]) by {
                    if i == p {
                        let w = old_ordered[j - 1];
                        lemma_ranks_order(w, c, old_ordered[p as int]);
                        if j - 1 > p {
                            assert(!ranks_before(old_ordered[j - 1], old_ordered[p as int]));
                        }
                    } else if j == p {
                        assert(!ranks_before(c, old_ordered[i]));
                    } else if i < p && j < p {
                        assert(!ranks_before(old_ordered[j], old_ordered[i]));
                    } else if i < p {
                        assert(!ranks_before(old_ordered[j - 1], old_ordered[i]));
                    } else {
                        assert(!ranks_before(old_ordered[j - 1], old_ordered[i - 1]));
                    }
                }
                assert(nv.to_multiset() == old_ordered.to_multiset().insert(c));
                assert(pending(before, tested@, known@) == pending(rest@, tested@, known@).push(c));
                assert(pending(before, tested@, known@).to_multiset()
                    =~= pending(rest@, tested@, known@).to_multiset().insert(c));
                assert(nv.to_multiset().add(pending(rest@, tested@, known@).to_multiset())
                    =~= old_ordered.to_multiset().add(pending(before, tested@, known@).to_multiset()));
            }
        } else {
            assert(pending(before, tested@, known@) == pending(rest@, tested@, known@));
        }
    }
    proof {
        lemma_empty_multiset(pending(rest@, tested@, known@));
    }
    assert(ordered@.to_multiset().add(Multiset::empty()) =~= ordered@.to_multiset());
    let mut selected: Vec<NodeId> = Vec::new();
    let mut i: usize = 0;
    while i < ordered.len() && i < limit
        invariant
            i <= ordered@.len(),
            i <= limit,
            selected@.len() == i,
            ranked(ordered@),
            ordered@.to_multiset() == pending(all, tested@, known@).to_multiset(),
            forall|k: int| 0 <= k < i ==> (#[trigger] selected@[k])@ == ordered@[k].node_id@,
        decreases ordered.len() - i,
    {
        selected.push(ordered[i].node_id.duplicate());
        i = i + 1;
    }
    assert({
        let s = ordered@;
        &&& s.to_multiset() == pending(all, tested@, known@).to_multiset()
        &&& ranked(s)
        &&& selected@.len() == (if limit < s.len() { limit as int } else { s.len() as int })
        &&& forall|k: int| 0 <= k < selected@.len() ==> (#[trigger] selected@[k])@ == s[k].node_id@
    });
    selected
}

} // verus!
