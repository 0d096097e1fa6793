//! The operation coordinator: bounded admission of concurrent
//! operations and cooperative cancellation.
//!
//! The coordinator is the decision core of the task runner.  The runner
//! around it asks for admission before starting heavy work, polls the
//! cancellation flag between units of work, and reports back when an
//! operation ends; the permit count never exceeds the limit.

use vstd::prelude::*;

use crate::state::{Operation, OperationResult};

verus! {

/// One admitted operation: its ticket and whether cancellation has been
/// requested for it.
#[derive(Debug, Clone, Copy, PartialEq, Eq, Structural)]
pub struct ActiveOperation {
    pub id: u64,
    pub cancel_requested: bool,
}

/// The records of `s` without those carrying `id`, order kept.
pub open spec fn without_id(s: Seq<ActiveOperation>, id: u64) -> Seq<ActiveOperation>
    decreases s.len(),
{
    if s.len() == 0 {
        s
    } else {
        let rest = without_id(s.drop_last(), id);
        if s.last().id == id {
            rest
        } else {
            rest.push(s.last())
        }
    }
}

proof fn lemma_without_id_bounds(s: Seq<ActiveOperation>, id: u64, bound: int)
    requires
        forall|i: int| 0 <= i < s.len() ==> (#[trigger] s[i].id) < bound,
    ensures
        without_id(s, id).len() <= s.len(),
        forall|i: int| 0 <= i < without_id(s, id).len() ==> (#[trigger] without_id(s, id)[i].id)
            < bound,
    decreases s.len(),
{
    if s.len() > 0 {
        lemma_without_id_bounds(s.drop_last(), id, bound);
    }
}

/// Admits at most `permit_limit` operations at a time and carries one
/// cancellation flag per admitted operation.
pub struct OperationManager {
    permit_limit: usize,
    active: Vec<ActiveOperation>,
    next_op_id: u64,
}

impl OperationManager {
    /// The admitted operations, in admission order.
    pub closed spec fn ops(&self) -> Seq<ActiveOperation> {
        self.active@
    }

    /// The permit count: how many operations may run at once.
    pub closed spec fn limit(&self) -> int {
        self.permit_limit as int
    }

    /// The ticket the next admitted operation will get.
    pub closed spec fn next_id(&self) -> int {
        self.next_op_id as int
    }

    /// The coordinator's invariant: never more admitted operations than
    /// permits, and every ticket below the next one.
    pub open spec fn wf(&self) -> bool {
        &&& self.ops().len() <= self.limit()
        &&& forall|i: int| 0 <= i < self.ops().len() ==> (#[trigger] self.ops()[i].id)
            < self.next_id()
    }

    pub open spec fn active_count(&self) -> int {
        self.ops().len() as int
    }

    /// Whether the operation with this ticket is still admitted.
    pub open spec fn has_op(&self, id: u64) -> bool {
        exists|i: int| 0 <= i < self.ops().len() && (#[trigger] self.ops()[i].id) == id
    }

    /// Whether cancellation was requested for this ticket.
    pub open spec fn is_cancelled_spec(&self, id: u64) -> bool {
        exists|i: int|
            0 <= i < self.ops().len() && (#[trigger] self.ops()[i].id) == id
                && self.ops()[i].cancel_requested
    }

    /// A coordinator with the default permit count of three.
    pub fn new() -> (r: Self)
        ensures
            r.wf(),
            r.limit() == 3,
            r.ops() == Seq::<ActiveOperation>::empty(),
            r.next_id() == 0,
    {
        OperationManager { permit_limit: 3, active: Vec::new(), next_op_id: 0 }
    }

    /// A coordinator with the given permit count.
    pub fn with_limit(permit_limit: usize) -> (r: Self)
        ensures
            r.wf(),
            r.limit() == permit_limit as int,
            r.ops() == Seq::<ActiveOperation>::empty(),
            r.next_id() == 0,
    {
        OperationManager { permit_limit, active: Vec::new(), next_op_id: 0 }
    }

    /// Ask for a permit.  When one is free, the operation is admitted
    /// with a fresh ticket and an unset cancellation flag; when all
    /// permits are taken, nothing changes and the caller must wait and
    /// ask again.
    pub fn try_begin_operation(&mut self) -> (r: Option<u64>)
        requires
            old(self).wf(),
        ensures
            final(self).wf(),
            final(self).limit() == old(self).limit(),
            r is Some <==> old(self).active_count() < old(self).limit() && old(self).next_id()
                < u64::MAX as int,
            r is Some ==> {
                &&& r->0 as int == old(self).next_id()
                &&& final(self).ops() == old(self).ops().push(
                    ActiveOperation { id: r->0, cancel_requested: false },
                )
                &&& final(self).next_id() == old(self).next_id() + 1
            },
            r is None ==> *final(self) == *old(self),
    {
        if self.next_op_id == u64::MAX {
            return None;
        }
        if self.active.len() < self.permit_limit {
            let id = self.next_op_id;
            self.active.push(ActiveOperation { id, cancel_requested: false });
            self.next_op_id = id + 1;
            Some(id)
        } else {
            None
        }
    }

    /// Give the permit back: the ticket's record is dropped, whatever
    /// the operation's outcome was.
    pub fn finish_operation(&mut self, id: u64)
        requires
            old(self).wf(),
        ensures
            final(self).wf(),
            final(self).limit() == old(self).limit(),
            final(self).next_id() == old(self).next_id(),
            final(self).ops() == without_id(old(self).ops(), id),
    {
        let mut kept: Vec<ActiveOperation> = Vec::new();
        let mut i: usize = 0;
        proof {
            assert(self.ops().take(0) =~= Seq::<ActiveOperation>::empty());
        }
        while i < self.active.len()
            invariant
                i <= self.active@.len(),
                kept@ == without_id(self.active@.take(i as int), id),
            decreases self.active@.len() - i,
        {
            proof {
                assert(self.active@.take(i + 1).drop_last() =~= self.active@.take(i as int));
                assert(self.active@.take(i + 1).last() == self.active@[i as int]);
            }
            let op = self.active[i];
            if op.id != id {
                kept.push(op);
            }
            i += 1;
        }
        proof {
            assert(self.active@.take(self.active@.len() as int) =~= self.active@);
            lemma_without_id_bounds(self.active@, id, self.next_op_id as int);
        }
        self.active = kept;
    }

    /// Request cancellation of every admitted operation.  Each worker
    /// sees its flag at its next poll; work already done is not undone.
    pub fn cancel_all_operations(&mut self)
        requires
            old(self).wf(),
        ensures
            final(self).wf(),
            final(self).limit() == old(self).limit(),
            final(self).next_id() == old(self).next_id(),
            final(self).ops().len() == old(self).ops().len(),
            forall|i: int|
                0 <= i < old(self).ops().len() ==> (#[trigger] final(self).ops()[i]) == (
                ActiveOperation { id: old(self).ops()[i].id, cancel_requested: true }),
    {
        let n = self.active.len();
        let mut i: usize = 0;
        while i < n
            invariant
                n == self.active@.len(),
                i <= n,
                self.permit_limit == old(self).permit_limit,
                self.next_op_id == old(self).next_op_id,
                self.active@.len() == old(self).active@.len(),
                forall|k: int|
                    0 <= k < i ==> (#[trigger] self.active@[k]) == (ActiveOperation {
                        id: old(self).active@[k].id,
                        cancel_requested: true,
                    }),
                forall|k: int|
                    i <= k < n ==> (#[trigger] self.active@[k]) == old(self).active@[k],
            decreases n - i,
        {
            let id = self.active[i].id;
            self.active[i] = ActiveOperation { id, cancel_requested: true };
            i += 1;
        }
    }

    /// Whether cancellation has been requested for this ticket.  A
    /// worker polls this between units of work and aborts with a
    /// `Cancelled` outcome when it returns true.
    pub fn is_cancelled(&self, id: u64) -> (r: bool)
        ensures
            r == self.is_cancelled_spec(id),
    {
        let mut i: usize = 0;
        let mut found = false;
        while i < self.active.len()
            invariant
                i <= self.active@.len(),
                found == exists|k: int|
                    0 <= k < i && (#[trigger] self.active@[k].id) == id
                        && self.active@[k].cancel_requested,
            decreases self.active@.len() - i,
        {
            let op = self.active[i];
            if op.id == id && op.cancel_requested {
                found = true;
            }
            i += 1;
        }
        proof {
            if found {
                let w = choose|k: int|
                    0 <= k < i && (#[trigger] self.active@[k].id) == id
                        && self.active@[k].cancel_requested;
                assert(0 <= w < self.ops().len() && self.ops()[w].id == id
                    && self.ops()[w].cancel_requested);
            }
            if self.is_cancelled_spec(id) {
                let w = choose|k: int|
                    0 <= k < self.ops().len() && (#[trigger] self.ops()[k].id) == id
                        && self.ops()[k].cancel_requested;
                assert(0 <= w < i && self.active@[w].id == id
                    && self.active@[w].cancel_requested);
            }
        }
        found
    }

    /// How many operations hold a permit right now.
    pub fn get_active_operation_count(&self) -> (r: usize)
        ensures
            r as int == self.active_count(),
    {
        self.active.len()
    }
}

/// The concurrency bound: a well-formed coordinator never has more
/// operations admitted than its permit count, so at most that many run
/// at once.
pub proof fn lemma_concurrency_bound(m: &OperationManager)
    requires
        m.wf(),
    ensures
        m.active_count() <= m.limit(),
{
}

/// Cancellation reaches every in-flight operation: once every flag is
/// set, any admitted ticket reports cancelled.
pub proof fn lemma_cancel_all_observed(m: &OperationManager, id: u64)
    requires
        forall|k: int| 0 <= k < m.ops().len() ==> (#[trigger] m.ops()[k]).cancel_requested,
        m.has_op(id),
    ensures
        m.is_cancelled_spec(id),
{
    let w = choose|i: int| 0 <= i < m.ops().len() && (#[trigger] m.ops()[i].id) == id;
    assert(m.ops()[w].cancel_requested);
}

/// The result an operation resolves to on success: creation and
/// extraction name their output path, validation carries its verdict,
/// hashing carries the digest.
pub fn operation_result(op: Operation, validated: bool, hash: String) -> (r: OperationResult)
    ensures
        r == (match op {
            Operation::CreateArchive { output, .. } => OperationResult::ArchiveCreated(output),
            Operation::ExtractArchive { output, .. } => OperationResult::ArchiveExtracted(output),
            Operation::ValidateArchive { .. } => OperationResult::ArchiveValidated(validated),
            Operation::CalculateHash { .. } => OperationResult::HashCalculated(hash),
        }),
{
    match op {
        Operation::CreateArchive { output, files: _ } => OperationResult::ArchiveCreated(output),
        Operation::ExtractArchive { archive: _, output } => OperationResult::ArchiveExtracted(
            output,
        ),
        Operation::ValidateArchive { archive: _ } => OperationResult::ArchiveValidated(validated),
        Operation::CalculateHash { file: _ } => OperationResult::HashCalculated(hash),
    }
}

} // verus!
