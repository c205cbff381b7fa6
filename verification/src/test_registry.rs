//! In-memory lifecycle and deduplication for quality-test operations.

use vstd::prelude::*;

use crate::domain::{
    timestamp_before_or_at, timestamp_le, NodeId, OperationId, RecordView, StateView, TestState,
    Timestamp,
};

verus! {

/// Result of registering one queued node test.
pub enum QueueRegistration {
    Existing(OperationId),
    New { operation_id: OperationId, state: TestState },
}

pub type OpEntry = (OperationId, TestState);

pub type PendingEntry = (NodeId, OperationId);

pub open spec fn ops_unique(s: Seq<OpEntry>) -> bool {
    forall|i: int, j: int| 0 <= i < j < s.len() ==> #[trigger] s[i].0.value != #[trigger] s[j].0.value
}

pub open spec fn has_op(s: Seq<OpEntry>, k: u128) -> bool {
    exists|i: int| 0 <= i < s.len() && #[trigger] s[i].0.value == k
}

/// The operations as a map from operation id to state.
pub open spec fn ops_view(s: Seq<OpEntry>) -> Map<u128, StateView> {
    Map::new(
        |k: u128| has_op(s, k),
        |k: u128| s[choose|i: int| 0 <= i < s.len() && #[trigger] s[i].0.value == k].1@,
    )
}

pub open spec fn pending_unique(s: Seq<PendingEntry>) -> bool {
    forall|i: int, j: int| 0 <= i < j < s.len() ==> #[trigger] s[i].0@ != #[trigger] s[j].0@
}

pub open spec fn has_pending(s: Seq<PendingEntry>, n: Seq<char>) -> bool {
    exists|i: int| 0 <= i < s.len() && #[trigger] s[i].0@ == n
}

/// The in-flight operations as a map from node id to operation id.
pub open spec fn pending_view(s: Seq<PendingEntry>) -> Map<Seq<char>, u128> {
    Map::new(
        |n: Seq<char>| has_pending(s, n),
        |n: Seq<char>| s[choose|i: int| 0 <= i < s.len() && #[trigger] s[i].0@ == n].1.value,
    )
}

pub open spec fn nodes_view(s: Seq<NodeId>) -> Set<Seq<char>> {
    Set::new(|n: Seq<char>| exists|i: int| 0 <= i < s.len() && #[trigger] s[i]@ == n)
}

pub open spec fn nodes_unique(s: Seq<NodeId>) -> bool {
    forall|i: int, j: int| 0 <= i < j < s.len() ==> #[trigger] s[i]@ != #[trigger] s[j]@
}

/// A finished test and when its result was recorded.
pub open spec fn completed_at(s: StateView) -> Option<Timestamp> {
    match s {
        StateView::Succeeded { record, .. } => Some(record.tested_at),
        StateView::Failed { record, .. } => Some(record.tested_at),
        _ => None,
    }
}

pub open spec fn completed_count(s: Seq<OpEntry>) -> nat
    decreases s.len(),
{
    if s.len() == 0 {
        0
    } else {
        completed_count(s.drop_last()) + if completed_at(s.last().1@) is Some { 1nat } else { 0nat }
    }
}

proof fn lemma_ops_update(s: Seq<OpEntry>, i: int, e: OpEntry)
    requires
        ops_unique(s),
        0 <= i < s.len(),
        e.0.value == s[i].0.value,
    ensures
        ops_unique(s.update(i, e)),
        ops_view(s.update(i, e)) =~= ops_view(s).insert(e.0.value, e.1@),
{
    let t = s.update(i, e);
    assert forall|k: u128| #[trigger] has_op(t, k) == (has_op(s, k) || k == e.0.value) by {
        if has_op(s, k) {
            let j = choose|j: int| 0 <= j < s.len() && #[trigger] s[j].0.value == k;
            assert(t[j].0.value == k);
        }
        if has_op(t, k) {
            let j = choose|j: int| 0 <= j < t.len() && #[trigger] t[j].0.value == k;
            assert(s[j].0.value == k);
        }
        if k == e.0.value {
            assert(t[i].0.value == k);
        }
    }
    assert forall|k: u128| #[trigger] ops_view(t).contains_key(k) implies ops_view(t)[k] == ops_view(s).insert(e.0.value, e.1@)[k] by {
        let j = choose|j: int| 0 <= j < t.len() && #[trigger] t[j].0.value == k;
        if k != e.0.value {
            let m = choose|m: int| 0 <= m < s.len() && #[trigger] s[m].0.value == k;
            assert(j == m);
        } else {
            assert(j == i);
        }
    }
}

proof fn lemma_ops_push(s: Seq<OpEntry>, e: OpEntry)
    requires
        ops_unique(s),
        !has_op(s, e.0.value),
    ensures
        ops_unique(s.push(e)),
        ops_view(s.push(e)) =~= ops_view(s).insert(e.0.value, e.1@),
{
    let t = s.push(e);
    assert forall|k: u128| #[trigger] has_op(t, k) == (has_op(s, k) || k == e.0.value) by {
        if has_op(s, k) {
            let j = choose|j: int| 0 <= j < s.len() && #[trigger] s[j].0.value == k;
            assert(t[j].0.value == k);
        }
        if has_op(t, k) && k != e.0.value {
            let j = choose|j: int| 0 <= j < t.len() && #[trigger] t[j].0.value == k;
            assert(s[j].0.value == k);
        }
        if k == e.0.value {
            assert(t[s.len() as int].0.value == k);
        }
    }
    assert forall|k: u128| #[trigger] ops_view(t).contains_key(k) implies ops_view(t)[k] == ops_view(s).insert(e.0.value, e.1@)[k] by {
        let j = choose|j: int| 0 <= j < t.len() && #[trigger] t[j].0.value == k;
        if k != e.0.value {
            let m = choose|m: int| 0 <= m < s.len() && #[trigger] s[m].0.value == k;
            assert(t[m].0.value == k);
            assert(j == m);
        } else {
            assert(j == s.len());
        }
    }
}

proof fn lemma_ops_remove(s: Seq<OpEntry>, i: int)
    requires
        ops_unique(s),
        0 <= i < s.len(),
    ensures
        ops_unique(s.remove(i)),
        ops_view(s.remove(i)) =~= ops_view(s).remove(s[i].0.value),
        completed_count(s) == completed_count(s.remove(i)) + if completed_at(s[i].1@) is Some { 1nat } else { 0nat },
{
    let t = s.remove(i);
    let key = s[i].0.value;
    assert forall|a: int, b: int| 0 <= a < b < t.len() implies #[trigger] t[a].0.value != #[trigger] t[b].0.value by {
        let a2 = if a < i { a } else { a + 1 };
        let b2 = if b < i { b } else { b + 1 };
        assert(t[a] == s[a2] && t[b] == s[b2]);
    }
    assert forall|k: u128| #[trigger] has_op(t, k) == (has_op(s, k) && k != key) by {
        if has_op(s, k) && k != key {
            let j = choose|j: int| 0 <= j < s.len() && #[trigger] s[j].0.value == k;
            if j < i {
                assert(t[j].0.value == k);
            } else {
                assert(t[j - 1].0.value == k);
            }
        }
        if has_op(t, k) {
            let j = choose|j: int| 0 <= j < t.len() && #[trigger] t[j].0.value == k;
            if j < i {
                assert(s[j].0.value == k);
            } else {
                assert(s[j + 1].0.value == k);
            }
        }
    }
    assert forall|k: u128| #[trigger] ops_view(t).contains_key(k) implies ops_view(t)[k] == ops_view(s)[k] by {
        let j = choose|j: int| 0 <= j < t.len() && #[trigger] t[j].0.value == k;
        let m = choose|m: int| 0 <= m < s.len() && #[trigger] s[m].0.value == k;
        if j < i {
            assert(s[j].0.value == k);
            assert(m == j);
        } else {
            assert(s[j + 1].0.value == k);
            assert(m == j + 1);
        }
    }
    lemma_count_remove(s, i);
}

proof fn lemma_count_remove(s: Seq<OpEntry>, i: int)
    requires
        0 <= i < s.len(),
    ensures
        completed_count(s) == completed_count(s.remove(i)) + if completed_at(s[i].1@) is Some { 1nat } else { 0nat },
    decreases s.len(),
{
    if i == s.len() - 1 {
        assert(s.remove(i) =~= s.drop_last());
    } else {
        lemma_count_remove(s.drop_last(), i);
        assert(s.remove(i).drop_last() =~= s.drop_last().remove(i));
        assert(s.remove(i).last() == s.last());
    }
}

proof fn lemma_pending_remove(s: Seq<PendingEntry>, i: int)
    requires
        pending_unique(s),
        0 <= i < s.len(),
    ensures
        pending_unique(s.remove(i)),
        pending_view(s.remove(i)) =~= pending_view(s).remove(s[i].0@),
{
    let t = s.remove(i);
    let key = s[i].0@;
    assert forall|a: int, b: int| 0 <= a < b < t.len() implies #[trigger] t[a].0@ != #[trigger] t[b].0@ by {
        let a2 = if a < i { a } else { a + 1 };
        let b2 = if b < i { b } else { b + 1 };
        assert(t[a] == s[a2] && t[b] == s[b2]);
    }
    assert forall|k: Seq<char>| #[trigger] has_pending(t, k) == (has_pending(s, k) && k != key) by {
        if has_pending(s, k) && k != key {
            let j = choose|j: int| 0 <= j < s.len() && #[trigger] s[j].0@ == k;
            if j < i {
                assert(t[j].0@ == k);
            } else {
                assert(t[j - 1].0@ == k);
            }
        }
        if has_pending(t, k) {
            let j = choose|j: int| 0 <= j < t.len() && #[trigger] t[j].0@ == k;
            if j < i {
                assert(s[j].0@ == k);
            } else {
                assert(s[j + 1].0@ == k);
            }
        }
    }
    assert forall|k: Seq<char>| #[trigger] pending_view(t).contains_key(k) implies pending_view(t)[k] == pending_view(s)[k] by {
        let j = choose|j: int| 0 <= j < t.len() && #[trigger] t[j].0@ == k;
        let m = choose|m: int| 0 <= m < s.len() && #[trigger] s[m].0@ == k;
        if j < i {
            assert(s[j].0@ == k);
            assert(m == j);
        } else {
            assert(s[j + 1].0@ == k);
            assert(m == j + 1);
        }
    }
}

proof fn lemma_pending_push(s: Seq<PendingEntry>, e: PendingEntry)
    requires
        pending_unique(s),
        !has_pending(s, e.0@),
    ensures
        pending_unique(s.push(e)),
        pending_view(s.push(e)) =~= pending_view(s).insert(e.0@, e.1.value),
{
    let t = s.push(e);
    assert forall|k: Seq<char>| #[trigger] has_pending(t, k) == (has_pending(s, k) || k == e.0@) by {
        if has_pending(s, k) {
            let j = choose|j: int| 0 <= j < s.len() && #[trigger] s[j].0@ == k;
            assert(t[j].0@ == k);
        }
        if has_pending(t, k) && k != e.0@ {
            let j = choose|j: int| 0 <= j < t.len() && #[trigger] t[j].0@ == k;
            assert(s[j].0@ == k);
        }
        if k == e.0@ {
            assert(t[s.len() as int].0@ == k);
        }
    }
    assert forall|k: Seq<char>| #[trigger] pending_view(t).contains_key(k) implies pending_view(t)[k] == pending_view(s).insert(e.0@, e.1.value)[k] by {
        let j = choose|j: int| 0 <= j < t.len() && #[trigger] t[j].0@ == k;
        if k != e.0@ {
            let m = choose|m: int| 0 <= m < s.len() && #[trigger] s[m].0@ == k;
            assert(t[m].0@ == k);
            assert(j == m);
        } else {
            assert(j == s.len());
        }
    }
}

/// Keeps API-visible operations and the one-in-flight-test-per-node invariant together.
pub struct TestRegistry {
    operations: Vec<OpEntry>,
    pending_by_node: Vec<PendingEntry>,
    observed_nodes: Vec<NodeId>,
}

impl TestRegistry {
    /// Operation id to state.
    pub closed spec fn operations(&self) -> Map<u128, StateView> {
        ops_view(self.operations@)
    }

    /// Node id to its queued or running operation.
    pub closed spec fn pending(&self) -> Map<Seq<char>, u128> {
        pending_view(self.pending_by_node@)
    }

    /// Nodes with a completed test.
    pub closed spec fn observed(&self) -> Set<Seq<char>> {
        nodes_view(self.observed_nodes@)
    }

    /// Number of completed operations still held.
    pub closed spec fn completed(&self) -> nat {
        completed_count(self.operations@)
    }

    pub closed spec fn wf(&self) -> bool {
        &&& ops_unique(self.operations@)
        &&& pending_unique(self.pending_by_node@)
        &&& nodes_unique(self.observed_nodes@)
    }

    pub fn new() -> (r: TestRegistry)
        ensures
            r.wf(),
            r.operations() == Map::<u128, StateView>::empty(),
            r.pending() == Map::<Seq<char>, u128>::empty(),
            r.observed() == Set::<Seq<char>>::empty(),
            r.completed() == 0,
    {
        let r = TestRegistry { operations: Vec::new(), pending_by_node: Vec::new(), observed_nodes: Vec::new() };
        assert(r.operations() =~= Map::<u128, StateView>::empty());
        assert(r.pending() =~= Map::<Seq<char>, u128>::empty());
        assert(r.observed() =~= Set::<Seq<char>>::empty());
        r
    }

    fn op_position(&self, k: u128) -> (r: Option<usize>)
        ensures
            match r {
                Some(i) => i < self.operations@.len() && self.operations@[i as int].0.value == k,
                None => !has_op(self.operations@, k),
            },
    {
        let mut i: usize = 0;
        while i < self.operations.len()
            invariant
                i <= self.operations@.len(),
                forall|m: int| 0 <= m < i ==> (#[trigger] self.operations@[m]).0.value != k,
            decreases self.operations.len() - i,
        {
            if self.operations[i].0.value == k {
                return Some(i);
            }
            i = i + 1;
        }
        None
    }

    fn pending_position(&self, n: &NodeId) -> (r: Option<usize>)
        ensures
            match r {
                Some(i) => i < self.pending_by_node@.len() && self.pending_by_node@[i as int].0@ == n@,
                None => !has_pending(self.pending_by_node@, n@),
            },
    {
        let mut i: usize = 0;
        while i < self.pending_by_node.len()
            invariant
                i <= self.pending_by_node@.len(),
                forall|m: int| 0 <= m < i ==> (#[trigger] self.pending_by_node@[m]).0@ != n@,
            decreases self.pending_by_node.len() - i,
        {
            if self.pending_by_node[i].0.same(n) {
                return Some(i);
            }
            i = i + 1;
        }
        None
    }

    /// Sets the state of an operation, replacing any earlier state.
    fn put_operation(&mut self, operation_id: OperationId, state: TestState)
        requires
            old(self).wf(),
        ensures
            final(self).wf(),
            final(self).operations() == old(self).operations().insert(operation_id.value, state@),
            final(self).pending() == old(self).pending(),
            final(self).observed() == old(self).observed(),
    {
        let ghost sv = state@;
        match self.op_position(operation_id.value) {
            Some(i) => {
                proof {
                    lemma_ops_update(self.operations@, i as int, (operation_id, state));
                }
                self.operations.set(i, (operation_id, state));
            },
            None => {
                proof {
                    lemma_ops_push(self.operations@, (operation_id, state));
                }
                self.operations.push((operation_id, state));
            },
        }
    }

    /// Drops an operation, if present.
    fn drop_operation(&mut self, operation_id: OperationId)
        requires
            old(self).wf(),
        ensures
            final(self).wf(),
            final(self).operations() == old(self).operations().remove(operation_id.value),
            final(self).pending() == old(self).pending(),
            final(self).observed() == old(self).observed(),
    {
        match self.op_position(operation_id.value) {
            Some(i) => {
                proof {
                    lemma_ops_remove(self.operations@, i as int);
                }
                self.operations.remove(i);
            },
            None => {
                assert(self.operations() =~= self.operations().remove(operation_id.value));
            },
        }
    }

    /// Clears the node's in-flight entry when it belongs to `operation_id`.
    fn release_pending(&mut self, node_id: &NodeId, operation_id: OperationId)
        requires
            old(self).wf(),
        ensures
            final(self).wf(),
            final(self).operations() == old(self).operations(),
            final(self).observed() == old(self).observed(),
            final(self).pending() == if old(self).pending().get(node_id@) == Some(operation_id.value) {
                old(self).pending().remove(node_id@)
            } else {
                old(self).pending()
            },
    {
        match self.pending_position(node_id) {
            Some(i) => {
                if self.pending_by_node[i].1.value == operation_id.value {
                    proof {
                        lemma_pending_remove(self.pending_by_node@, i as int);
                    }
                    self.pending_by_node.remove(i);
                }
            },
            None => {},
        }
    }

    /// Registers a queued test unless one is already in flight for the node.
    pub fn queue(&mut self, node_id: NodeId, queued_at: Timestamp) -> (r: QueueRegistration)
        requires
            old(self).wf(),
        ensures
            final(self).wf(),
            match old(self).pending().get(node_id@) {
                Some(op) => r == QueueRegistration::Existing(OperationId { value: op })
                    && final(self).operations() == old(self).operations()
                    && final(self).pending() == old(self).pending()
                    && final(self).observed() == old(self).observed(),
                None => r matches QueueRegistration::New { operation_id, state }
                    && state@ == (StateView::Queued { node_id: node_id@, queued_at })
                    && final(self).operations() == old(self).operations().insert(operation_id.value, state@)
                    && final(self).pending() == old(self).pending().insert(node_id@, operation_id.value)
                    && final(self).observed() == old(self).observed(),
            },
    {
        match self.pending_position(&node_id) {
            Some(i) => {
                return QueueRegistration::Existing(self.pending_by_node[i].1);
            },
            None => {},
        }
        let operation_id = OperationId::new();
        let state = TestState::Queued { node_id: node_id.duplicate(), queued_at };
        let copy = state.duplicate();
        let ghost key = node_id@;
        proof {
            lemma_pending_push(self.pending_by_node@, (node_id, operation_id));
        }
        self.pending_by_node.push((node_id, operation_id));
        self.put_operation(operation_id, copy);
        QueueRegistration::New { operation_id, state }
    }

    /// Undoes a registration whose job could not be queued.
    pub fn rollback_queued(&mut self, node_id: &NodeId, operation_id: OperationId)
        requires
            old(self).wf(),
        ensures
            final(self).wf(),
            final(self).operations() == old(self).operations().remove(operation_id.value),
            final(self).observed() == old(self).observed(),
            final(self).pending() == if old(self).pending().get(node_id@) == Some(operation_id.value) {
                old(self).pending().remove(node_id@)
            } else {
                old(self).pending()
            },
    {
        self.release_pending(node_id, operation_id);
        self.drop_operation(operation_id);
    }

    /// The current state of an operation.
    pub fn state(&self, operation_id: OperationId) -> (r: Option<TestState>)
        requires
            self.wf(),
        ensures
            match self.operations().get(operation_id.value) {
                Some(s) => r matches Some(x) && x@ == s,
                None => r is None,
            },
    {
        match self.op_position(operation_id.value) {
            Some(i) => {
                proof {
                    let s = self.operations@;
                    let j = choose|j: int| 0 <= j < s.len() && #[trigger] s[j].0.value == operation_id.value;
                    assert(s[i as int].0.value == operation_id.value);
                    assert(j == i);
                }
                Some(self.operations[i].1.duplicate())
            },
            None => None,
        }
    }

    /// Records that the operation started running.
    pub fn mark_running(&mut self, operation_id: OperationId, node_id: NodeId, started_at: Timestamp) -> (r: TestState)
        requires
            old(self).wf(),
        ensures
            final(self).wf(),
            r@ == (StateView::Running { node_id: node_id@, started_at }),
            final(self).operations() == old(self).operations().insert(operation_id.value, r@),
            final(self).pending() == old(self).pending(),
            final(self).observed() == old(self).observed(),
    {
        let state = TestState::Running { node_id, started_at };
        let copy = state.duplicate();
        self.put_operation(operation_id, copy);
        state
    }

    fn observe(&mut self, node_id: NodeId)
        requires
            old(self).wf(),
        ensures
            final(self).wf(),
            final(self).operations() == old(self).operations(),
            final(self).pending() == old(self).pending(),
            final(self).observed() == old(self).observed().insert(node_id@),
    {
        let mut i: usize = 0;
        while i < self.observed_nodes.len()
            invariant
                i <= self.observed_nodes@.len(),
                self.wf(),
                forall|m: int| 0 <= m < i ==> (#[trigger] self.observed_nodes@[m])@ != node_id@,
            decreases self.observed_nodes.len() - i,
        {
            if self.observed_nodes[i].same(&node_id) {
                assert(self.observed() =~= self.observed().insert(node_id@));
                return;
            }
            i = i + 1;
        }
        let ghost before = self.observed_nodes@;
        self.observed_nodes.push(node_id);
        proof {
            let s = self.observed_nodes@;
            assert forall|n: Seq<char>| #[trigger] nodes_view(s).contains(n) == nodes_view(before).insert(node_id@).contains(n) by {
                if nodes_view(before).contains(n) {
                    let j = choose|j: int| 0 <= j < before.len() && #[trigger] before[j]@ == n;
                    assert(s[j]@ == n);
                }
                if nodes_view(s).contains(n) && n != node_id@ {
                    let j = choose|j: int| 0 <= j < s.len() && #[trigger] s[j]@ == n;
                    assert(before[j]@ == n);
                }
                if n == node_id@ {
                    assert(s[before.len() as int]@ == n);
                }
            }
            assert(nodes_view(s) =~= nodes_view(before).insert(node_id@));
        }
    }

    /// Records a finished test: the node is no longer in flight (if this was
    /// its operation), it counts as observed, and the oldest finished
    /// operations beyond `history_limit` are forgotten.
    pub fn complete(&mut self, operation_id: OperationId, node_id: NodeId, state: TestState, history_limit: usize)
        requires
            old(self).wf(),
        ensures
            final(self).wf(),
            final(self).observed() == old(self).observed().insert(node_id@),
            final(self).pending() == if old(self).pending().get(node_id@) == Some(operation_id.value) {
                old(self).pending().remove(node_id@)
            } else {
                old(self).pending()
            },
            pruned(old(self).operations().insert(operation_id.value, state@), final(self).operations(), history_limit as nat),
    {
        self.release_pending(&node_id, operation_id);
        self.observe(node_id);
        self.put_operation(operation_id, state);
        self.prune_completed(history_limit);
    }

    /// Nodes with an in-flight or completed test.
    pub fn known_nodes(&self) -> (r: Vec<NodeId>)
        requires
            self.wf(),
        ensures
            nodes_view(r@) == self.pending().dom().union(self.observed()),
    {
        let mut out: Vec<NodeId> = Vec::new();
        let mut i: usize = 0;
        while i < self.pending_by_node.len()
            invariant
                i <= self.pending_by_node@.len(),
                nodes_view(out@) == Set::new(|n: Seq<char>| exists|m: int| 0 <= m < i && #[trigger] self.pending_by_node@[m].0@ == n),
            decreases self.pending_by_node.len() - i,
        {
            let ghost before = out@;
            out.push(self.pending_by_node[i].0.duplicate());
            proof {
                let s = out@;
                let p = self.pending_by_node@;
                assert forall|n: Seq<char>| #[trigger] nodes_view(s).contains(n) == (exists|m: int| 0 <= m < i + 1 && #[trigger] p[m].0@ == n) by {
                    if nodes_view(s).contains(n) {
                        let j = choose|j: int| 0 <= j < s.len() && #[trigger] s[j]@ == n;
                        if j < before.len() {
                            assert(nodes_view(before).contains(n));
                        } else {
                            assert(p[i as int].0@ == n);
                        }
                    }
                    if exists|m: int| 0 <= m < i + 1 && #[trigger] p[m].0@ == n {
                        let m = choose|m: int| 0 <= m < i + 1 && #[trigger] p[m].0@ == n;
                        if m < i {
                            assert(nodes_view(before).contains(n));
                            let j = choose|j: int| 0 <= j < before.len() && #[trigger] before[j]@ == n;
                            assert(s[j]@ == n);
                        } else {
                            assert(s[before.len() as int]@ == n);
                        }
                    }
                }
                assert(nodes_view(s) =~= Set::new(|n: Seq<char>| exists|m: int| 0 <= m < i + 1 && #[trigger] p[m].0@ == n));
            }
            i = i + 1;
        }
        let ghost from_pending = out@;
        let mut k: usize = 0;
        while k < self.observed_nodes.len()
            invariant
                k <= self.observed_nodes@.len(),
                i == self.pending_by_node@.len(),
                nodes_view(from_pending) == Set::new(|n: Seq<char>| exists|m: int| 0 <= m < i && #[trigger] self.pending_by_node@[m].0@ == n),
                nodes_view(out@) == nodes_view(from_pending).union(nodes_view(self.observed_nodes@.take(k as int))),
            decreases self.observed_nodes.len() - k,
        {
            let ghost before = out@;
            out.push(self.observed_nodes[k].duplicate());
            proof {
                let s = out@;
                let o = self.observed_nodes@;
                assert forall|n: Seq<char>| #[trigger] nodes_view(s).contains(n) == nodes_view(from_pending).union(nodes_view(o.take(k + 1))).contains(n) by {
                    if nodes_view(s).contains(n) {
                        let j = choose|j: int| 0 <= j < s.len() && #[trigger] s[j]@ == n;
                        if j < before.len() {
                            assert(nodes_view(before).contains(n));
                            if nodes_view(o.take(k as int)).contains(n) {
                                let q = choose|q: int| 0 <= q < o.take(k as int).len() && #[trigger] o.take(k as int)[q]@ == n;
                                assert(o.take(k + 1)[q]@ == n);
                            }
                        } else {
                            assert(o.take(k + 1)[k as int]@ == n);
                        }
                    }
                    if nodes_view(o.take(k + 1)).contains(n) {
                        let q = choose|q: int| 0 <= q < o.take(k + 1).len() && #[trigger] o.take(k + 1)[q]@ == n;
                        if q < k {
                            assert(o.take(k as int)[q]@ == n);
                            assert(nodes_view(before).contains(n));
                            let j = choose|j: int| 0 <= j < before.len() && #[trigger] before[j]@ == n;
                            assert(s[j]@ == n);
                        } else {
                            assert(s[before.len() as int]@ == n);
                        }
                    }
                    if nodes_view(from_pending).contains(n) {
                        assert(nodes_view(before).contains(n));
                        let j = choose|j: int| 0 <= j < before.len() && #[trigger] before[j]@ == n;
                        assert(s[j]@ == n);
                    }
                }
                assert(nodes_view(s) =~= nodes_view(from_pending).union(nodes_view(o.take(k + 1))));
            }
            k = k + 1;
        }
        proof {
            assert(self.observed_nodes@.take(k as int) =~= self.observed_nodes@);
            let p = self.pending_by_node@;
            assert(nodes_view(from_pending) =~= pending_view(p).dom()) by {
                assert forall|n: Seq<char>| nodes_view(from_pending).contains(n) == pending_view(p).dom().contains(n) by {
                    if has_pending(p, n) {
                        let m = choose|m: int| 0 <= m < p.len() && #[trigger] p[m].0@ == n;
                        assert(p[m].0@ == n);
                    }
                }
            }
            assert(nodes_view(out@) =~= self.pending().dom().union(self.observed()));
        }
        out
    }

    /// Forgets observed nodes that are no longer in the catalog.
    pub fn retain_observed(&mut self, current_nodes: &[NodeId])
        requires
            old(self).wf(),
        ensures
            final(self).wf(),
            final(self).observed() == old(self).observed().intersect(nodes_view(current_nodes@)),
            final(self).operations() == old(self).operations(),
            final(self).pending() == old(self).pending(),
    {
        let mut kept: Vec<NodeId> = Vec::new();
        let ghost old_obs = self.observed_nodes@;
        let mut i: usize = 0;
        while i < self.observed_nodes.len()
            invariant
                i <= old_obs.len(),
                self.observed_nodes@ == old_obs,
                nodes_unique(old_obs),
                forall|a: int| 0 <= a < kept@.len() ==> exists|b: int| 0 <= b < i && #[trigger] old_obs[b]@ == (#[trigger] kept@[a])@,
                nodes_unique(kept@),
                nodes_view(kept@) == nodes_view(old_obs.take(i as int)).intersect(nodes_view(current_nodes@)),
            decreases old_obs.len() - i,
        {
            let ghost before = kept@;
            let mut present = false;
            let mut j: usize = 0;
            while j < current_nodes.len()
                invariant
                    j <= current_nodes@.len(),
                    present == exists|m: int| 0 <= m < j && (#[trigger] current_nodes@[m])@ == old_obs[i as int]@,
                    i < old_obs.len(),
                    self.observed_nodes@ == old_obs,
                decreases current_nodes.len() - j,
            {
                if current_nodes[j].same(&self.observed_nodes[i]) {
                    present = true;
                }
                j = j + 1;
            }
            if present {
                kept.push(self.observed_nodes[i].duplicate());
            }
            proof {
                let x = old_obs[i as int]@;
                let s = kept@;
                assert forall|a: int, b: int| 0 <= a < b < s.len() implies #[trigger] s[a]@ != #[trigger] s[b]@ by {
                    if b == before.len() && present {
                        let q = choose|q: int| 0 <= q < i && #[trigger] old_obs[q]@ == before[a]@;
                        assert(old_obs[q]@ != old_obs[i as int]@);
                    }
                }
                assert forall|a: int| 0 <= a < s.len() implies exists|b: int| 0 <= b < i + 1 && #[trigger] old_obs[b]@ == (#[trigger] s[a])@ by {
                    if a < before.len() {
                        let q = choose|q: int| 0 <= q < i && #[trigger] old_obs[q]@ == before[a]@;
                        assert(old_obs[q]@ == s[a]@);
                    } else {
                        assert(old_obs[i as int]@ == s[a]@);
                    }
                }
                assert forall|n: Seq<char>| #[trigger] nodes_view(s).contains(n) == nodes_view(old_obs.take(i + 1)).intersect(nodes_view(current_nodes@)).contains(n) by {
                    if nodes_view(s).contains(n) {
                        let q = choose|q: int| 0 <= q < s.len() && #[trigger] s[q]@ == n;
                        if q < before.len() {
                            assert(nodes_view(before).contains(n));
                            let r = choose|r: int| 0 <= r < old_obs.take(i as int).len() && #[trigger] old_obs.take(i as int)[r]@ == n;
                            assert(old_obs.take(i + 1)[r]@ == n);
                        } else {
                            assert(old_obs.take(i + 1)[i as int]@ == n);
                            let m = choose|m: int| 0 <= m < j && (#[trigger] current_nodes@[m])@ == x;
                            assert(current_nodes@[m]@ == n);
                        }
                    }
                    if nodes_view(old_obs.take(i + 1)).contains(n) && nodes_view(current_nodes@).contains(n) {
                        let r = choose|r: int| 0 <= r < old_obs.take(i + 1).len() && #[trigger] old_obs.take(i + 1)[r]@ == n;
                        if r < i {
                            assert(old_obs.take(i as int)[r]@ == n);
                            assert(nodes_view(before).contains(n));
                            let q = choose|q: int| 0 <= q < before.len() && #[trigger] before[q]@ == n;
                            assert(s[q]@ == n);
                        } else {
                            let m = choose|m: int| 0 <= m < current_nodes@.len() && #[trigger] current_nodes@[m]@ == n;
                            assert(current_nodes@[m]@ == x);
                            assert(present);
                            assert(s[before.len() as int]@ == n);
                        }
                    }
                }
                assert(nodes_view(s) =~= nodes_view(old_obs.take(i + 1)).intersect(nodes_view(current_nodes@)));
            }
            i = i + 1;
        }
        assert(old_obs.take(i as int) =~= old_obs);
        self.observed_nodes = kept;
    }

    /// Index of the oldest completed operation.
    fn oldest_completed(&self) -> (r: Option<usize>)
        ensures
            match r {
                Some(i) => i < self.operations@.len() && completed_at(self.operations@[i as int].1@) is Some
                    && forall|j: int| 0 <= j < self.operations@.len() && #[trigger] completed_at(self.operations@[j].1@) is Some
                        ==> timestamp_le(completed_at(self.operations@[i as int].1@).unwrap(), completed_at(self.operations@[j].1@).unwrap()),
                None => forall|j: int| 0 <= j < self.operations@.len() ==> #[trigger] completed_at(self.operations@[j].1@) is None,
            },
    {
        let mut best: Option<usize> = None;
        let mut best_at = Timestamp { secs: 0, nanos: 0 };
        let mut i: usize = 0;
        while i < self.operations.len()
            invariant
                i <= self.operations@.len(),
                match best {
                    Some(b) => b < i && completed_at(self.operations@[b as int].1@) == Some(best_at)
                        && forall|j: int| 0 <= j < i && #[trigger] completed_at(self.operations@[j].1@) is Some
                            ==> timestamp_le(best_at, completed_at(self.operations@[j].1@).unwrap()),
                    None => forall|j: int| 0 <= j < i ==> #[trigger] completed_at(self.operations@[j].1@) is None,
                },
            decreases self.operations.len() - i,
        {
            let at = match &self.operations[i].1 {
                TestState::Succeeded { record, .. } => Some(record.tested_at),
                TestState::Failed { record, .. } => Some(record.tested_at),
                _ => None,
            };
            assert(at == completed_at(self.operations@[i as int].1@));
            match at {
                Some(t) => {
                    let take = match best {
                        None => true,
                        Some(_) => !timestamp_before_or_at(best_at, t),
                    };
                    if take {
                        best = Some(i);
                        best_at = t;
                    }
                },
                None => {},
            }
            i = i + 1;
        }
        best
    }

    /// Forgets the oldest completed operations beyond `history_limit`.
    fn prune_completed(&mut self, history_limit: usize)
        requires
            old(self).wf(),
        ensures
            final(self).wf(),
            final(self).pending() == old(self).pending(),
            final(self).observed() == old(self).observed(),
            pruned(old(self).operations(), final(self).operations(), history_limit as nat),
    {
        let ghost start = self.operations();
        let ghost start_count = self.completed();
        proof {
            lemma_completed_keys_count(self.operations@);
        }
        let mut count: usize = self.count_completed();
        assert(prune_progress(start, self.operations(), history_limit as nat, count as nat));
        while count > history_limit
            invariant
                self.wf(),
                count == self.completed(),
                self.pending() == old(self).pending(),
                self.observed() == old(self).observed(),
                start == old(self).operations(),
                prune_progress(start, self.operations(), history_limit as nat, count as nat),
            decreases count,
        {
            let ghost before = self.operations();
            match self.oldest_completed() {
                Some(i) => {
                    let ghost key = self.operations@[i as int].0.value;
                    proof {
                        lemma_ops_remove(self.operations@, i as int);
                        lemma_oldest_in_view(self.operations@, i as int);
                    }
                    self.operations.remove(i);
                    count = count - 1;
                    proof {
                        lemma_completed_keys_count(self.operations@);
                        lemma_prune_step(start, before, self.operations(), key, history_limit as nat, count as nat);
                    }
                },
                None => {
                    proof {
                        lemma_no_completed(self.operations@);
                    }
                    assert(false);
                    count = 0;
                },
            }
        }
        proof {
            lemma_prune_done(start, self.operations(), history_limit as nat, count as nat);
        }
    }

    fn count_completed(&self) -> (r: usize)
        ensures
            r == self.completed(),
    {
        let mut n: usize = 0;
        let mut i: usize = 0;
        while i < self.operations.len()
            invariant
                i <= self.operations@.len(),
                n == completed_count(self.operations@.take(i as int)),
                n <= i,
            decreases self.operations.len() - i,
        {
            assert(self.operations@.take(i + 1).drop_last() =~= self.operations@.take(i as int));
            let done = match &self.operations[i].1 {
                TestState::Succeeded { .. } => true,
                TestState::Failed { .. } => true,
                _ => false,
            };
            if done {
                n = n + 1;
            }
            i = i + 1;
        }
        assert(self.operations@.take(i as int) =~= self.operations@);
        n
    }
}

/// The number of completed operations in a map.
pub open spec fn completed_keys(m: Map<u128, StateView>) -> Set<u128> {
    m.dom().filter(|k: u128| completed_at(m[k]) is Some)
}

/// `after` is `before` with its oldest completed operations removed until at
/// most `limit` remain: nothing else changes, and every removed operation
/// finished no later than every completed one that stays.
pub open spec fn pruned(before: Map<u128, StateView>, after: Map<u128, StateView>, limit: nat) -> bool {
    &&& after.submap_of(before)
    &&& forall|k: u128| #[trigger] before.contains_key(k) && completed_at(before[k]) is None ==> after.contains_key(k)
    &&& forall|r: u128, k: u128|
        #![trigger before.contains_key(r), after.contains_key(k)]
        before.contains_key(r) && !after.contains_key(r) && after.contains_key(k) && completed_at(after[k]) is Some
            ==> timestamp_le(completed_at(before[r]).unwrap(), completed_at(after[k]).unwrap())
    &&& forall|r: u128| #[trigger] before.contains_key(r) && !after.contains_key(r) ==> completed_at(before[r]) is Some
    &&& completed_keys(after).len() == if completed_keys(before).len() > limit { limit } else { completed_keys(before).len() }
}

pub open spec fn prune_progress(start: Map<u128, StateView>, now: Map<u128, StateView>, limit: nat, count: nat) -> bool {
    &&& now.submap_of(start)
    &&& forall|k: u128| #[trigger] start.contains_key(k) && completed_at(start[k]) is None ==> now.contains_key(k)
    &&& forall|r: u128, k: u128|
        #![trigger start.contains_key(r), now.contains_key(k)]
        start.contains_key(r) && !now.contains_key(r) && now.contains_key(k) && completed_at(now[k]) is Some
            ==> timestamp_le(completed_at(start[r]).unwrap(), completed_at(now[k]).unwrap())
    &&& forall|r: u128| #[trigger] start.contains_key(r) && !now.contains_key(r) ==> completed_at(start[r]) is Some
    &&& completed_keys(now).finite()
    &&& completed_keys(now).len() == count
    &&& (count < completed_keys(start).len() ==> count >= limit)
    &&& count <= completed_keys(start).len()
}

proof fn lemma_completed_keys_count(s: Seq<OpEntry>)
    requires
        ops_unique(s),
    ensures
        completed_keys(ops_view(s)).finite(),
        completed_keys(ops_view(s)).len() == completed_count(s),
    decreases s.len(),
{
    if s.len() == 0 {
        assert(completed_keys(ops_view(s)) =~= Set::<u128>::empty());
    } else {
        let p = s.drop_last();
        let e = s.last();
        assert(ops_unique(p));
        assert(!has_op(p, e.0.value)) by {
            if has_op(p, e.0.value) {
                let j = choose|j: int| 0 <= j < p.len() && #[trigger] p[j].0.value == e.0.value;
                assert(s[j].0.value == s[s.len() - 1].0.value);
            }
        }
        lemma_ops_push(p, e);
        assert(p.push(e) =~= s);
        lemma_completed_keys_count(p);
        let before = completed_keys(ops_view(p));
        let after = completed_keys(ops_view(s));
        if completed_at(e.1@) is Some {
            assert(after =~= before.insert(e.0.value));
            assert(!before.contains(e.0.value));
        } else {
            assert(after =~= before);
        }
    }
}

proof fn lemma_oldest_in_view(s: Seq<OpEntry>, i: int)
    requires
        ops_unique(s),
        0 <= i < s.len(),
        completed_at(s[i].1@) is Some,
        forall|j: int| 0 <= j < s.len() && #[trigger] completed_at(s[j].1@) is Some
            ==> timestamp_le(completed_at(s[i].1@).unwrap(), completed_at(s[j].1@).unwrap()),
    ensures
        ops_view(s).contains_key(s[i].0.value),
        ops_view(s)[s[i].0.value] == s[i].1@,
        forall|k: u128| #[trigger] ops_view(s).contains_key(k) && completed_at(ops_view(s)[k]) is Some
            ==> timestamp_le(completed_at(s[i].1@).unwrap(), completed_at(ops_view(s)[k]).unwrap()),
{
    assert(has_op(s, s[i].0.value));
    let c = choose|j: int| 0 <= j < s.len() && #[trigger] s[j].0.value == s[i].0.value;
    assert(c == i);
    assert forall|k: u128| #[trigger] ops_view(s).contains_key(k) && completed_at(ops_view(s)[k]) is Some
        implies timestamp_le(completed_at(s[i].1@).unwrap(), completed_at(ops_view(s)[k]).unwrap()) by {
        let j = choose|j: int| 0 <= j < s.len() && #[trigger] s[j].0.value == k;
        assert(ops_view(s)[k] == s[j].1@);
    }
}

proof fn lemma_no_completed(s: Seq<OpEntry>)
    requires
        forall|j: int| 0 <= j < s.len() ==> #[trigger] completed_at(s[j].1@) is None,
    ensures
        completed_count(s) == 0,
    decreases s.len(),
{
    if s.len() > 0 {
        assert forall|j: int| 0 <= j < s.drop_last().len() implies #[trigger] completed_at(s.drop_last()[j].1@) is None by {
            assert(s.drop_last()[j] == s[j]);
        }
        lemma_no_completed(s.drop_last());
        assert(completed_at(s[s.len() - 1].1@) is None);
    }
}

proof fn lemma_prune_step(
    start: Map<u128, StateView>,
    before: Map<u128, StateView>,
    after: Map<u128, StateView>,
    key: u128,
    limit: nat,
    count: nat,
)
    requires
        prune_progress(start, before, limit, count + 1),
        after == before.remove(key),
        before.contains_key(key),
        completed_at(before[key]) is Some,
        forall|k: u128| #[trigger] before.contains_key(k) && completed_at(before[k]) is Some
            ==> timestamp_le(completed_at(before[key]).unwrap(), completed_at(before[k]).unwrap()),
        count + 1 > limit,
        completed_keys(after).finite(),
        completed_keys(after).len() == count,
    ensures
        prune_progress(start, after, limit, count),
{
    assert(after.submap_of(start));
    assert forall|r: u128, k: u128|
        #![trigger start.contains_key(r), after.contains_key(k)]
        start.contains_key(r) && !after.contains_key(r) && after.contains_key(k) && completed_at(after[k]) is Some
            implies timestamp_le(completed_at(start[r]).unwrap(), completed_at(after[k]).unwrap()) by {
        assert(before.contains_key(k) && after[k] == before[k]);
        if r == key {
            assert(start[r] == before[r]);
        } else {
            assert(!before.contains_key(r));
        }
    }
    assert forall|r: u128| #[trigger] start.contains_key(r) && !after.contains_key(r) implies completed_at(start[r]) is Some by {
        if r == key {
            assert(start[r] == before[r]);
        }
    }
}

proof fn lemma_prune_done(start: Map<u128, StateView>, now: Map<u128, StateView>, limit: nat, count: nat)
    requires
        prune_progress(start, now, limit, count),
        count <= limit,
    ensures
        pruned(start, now, limit),
{
}

} // verus!
