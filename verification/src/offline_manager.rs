//! The offline data manager: a priority-ordered operation queue with bounded
//! retries and explicit backpressure, an expiring key/value cache with
//! age-ordered size eviction, and a conflict inbox.

use vstd::prelude::*;
use crate::platform;
use vstd::string::StringSliceAdditionalSpecFns;
use crate::strutil;
use crate::sync_service::{SyncDataType, SyncOperation, SyncRecord, SyncRecordView};

verus! {

broadcast use {
    vstd::seq_lib::group_filter_ensures,
    Seq::lemma_filter_push,
    vstd::seq_lib::group_to_multiset_ensures,
};

/// Scheduling class of a queued operation; `Critical` is served first.
#[derive(Clone, Copy, Debug, PartialEq, Eq, Structural)]
pub enum OperationPriority {
    Low,
    Normal,
    High,
    Critical,
}

/// The numeric rank of a priority: larger ranks are served first.
pub open spec fn priority_rank(p: OperationPriority) -> int {
    match p {
        OperationPriority::Low => 0,
        OperationPriority::Normal => 1,
        OperationPriority::High => 2,
        OperationPriority::Critical => 3,
    }
}

/// What kind of disagreement a recorded conflict is.
#[derive(Clone, Copy, Debug, PartialEq, Eq, Structural)]
pub enum ConflictType {
    DataModified,
    DataDeleted,
    VersionMismatch,
    SchemaChange,
}

/// A failure the offline manager reports to its caller.
#[derive(Clone, Copy, Debug, PartialEq, Eq, Structural)]
pub enum OfflineError {
    /// The operation queue is at its configured bound; the new operation was
    /// rejected rather than an existing one silently dropped.
    QueueFull,
}

/// Default retry budget for a queued operation.
pub const DEFAULT_MAX_RETRIES: u32 = 3;

/// Default ceiling on total cached bytes.
pub const DEFAULT_MAX_CACHE_SIZE: u64 = 100 * 1024 * 1024;

/// Default bound on the operation queue's length.
pub const DEFAULT_MAX_QUEUE_SIZE: usize = 10000;

/// How long a resolved conflict is retained before it is purged, in
/// milliseconds: thirty days.
pub const RESOLVED_CONFLICT_RETENTION_MS: u64 = 30 * 24 * 60 * 60 * 1000;

/// A queued write awaiting application.
#[derive(Debug)]
pub struct OfflineOperation {
    pub id: String,
    pub user_id: String,
    pub device_id: String,
    pub operation_type: SyncOperation,
    pub data_type: SyncDataType,
    pub data_id: String,
    pub data_payload: String,
    /// Milliseconds since the epoch; preserved across re-queues so fairness
    /// within a priority class is kept.
    pub created_at: u64,
    pub retry_count: u32,
    pub max_retries: u32,
    pub priority: OperationPriority,
}

/// The mathematical image of an [`OfflineOperation`].
#[verifier::ext_equal]
pub struct OfflineOperationView {
    pub id: Seq<char>,
    pub user_id: Seq<char>,
    pub device_id: Seq<char>,
    pub operation_type: SyncOperation,
    pub data_type: SyncDataType,
    pub data_id: Seq<char>,
    pub data_payload: Seq<char>,
    pub created_at: u64,
    pub retry_count: u32,
    pub max_retries: u32,
    pub priority: OperationPriority,
}

impl View for OfflineOperation {
    type V = OfflineOperationView;

    open spec fn view(&self) -> OfflineOperationView {
        OfflineOperationView {
            id: self.id@,
            user_id: self.user_id@,
            device_id: self.device_id@,
            operation_type: self.operation_type,
            data_type: self.data_type,
            data_id: self.data_id@,
            data_payload: self.data_payload@,
            created_at: self.created_at,
            retry_count: self.retry_count,
            max_retries: self.max_retries,
            priority: self.priority,
        }
    }
}

impl OfflineOperation {
    /// A field-for-field copy carrying the same view.
    pub fn duplicate(&self) -> (r: Self)
        ensures
            r@ == self@,
    {
        OfflineOperation {
            id: self.id.clone(),
            user_id: self.user_id.clone(),
            device_id: self.device_id.clone(),
            operation_type: self.operation_type,
            data_type: self.data_type,
            data_id: self.data_id.clone(),
            data_payload: self.data_payload.clone(),
            created_at: self.created_at,
            retry_count: self.retry_count,
            max_retries: self.max_retries,
            priority: self.priority,
        }
    }
}

/// A locally cached read of remote data, with optional expiry.
#[derive(Debug)]
pub struct OfflineCache {
    pub key: String,
    pub data: String,
    pub data_type: SyncDataType,
    /// Milliseconds since the epoch; eviction is ordered by this field.
    pub created_at: u64,
    /// Milliseconds since the epoch; `None` never expires.
    pub expires_at: Option<u64>,
    pub size_bytes: u64,
}

/// The mathematical image of an [`OfflineCache`] entry.
#[verifier::ext_equal]
pub struct OfflineCacheView {
    pub key: Seq<char>,
    pub data: Seq<char>,
    pub data_type: SyncDataType,
    pub created_at: u64,
    pub expires_at: Option<u64>,
    pub size_bytes: u64,
}

impl View for OfflineCache {
    type V = OfflineCacheView;

    open spec fn view(&self) -> OfflineCacheView {
        OfflineCacheView {
            key: self.key@,
            data: self.data@,
            data_type: self.data_type,
            created_at: self.created_at,
            expires_at: self.expires_at,
            size_bytes: self.size_bytes,
        }
    }
}

/// Two change records for the same entity that could not both be applied.
#[derive(Debug)]
pub struct SyncConflict {
    pub id: String,
    pub user_id: String,
    pub data_id: String,
    pub local_version: SyncRecord,
    pub remote_version: SyncRecord,
    pub conflict_type: ConflictType,
    /// Milliseconds since the epoch.
    pub created_at: u64,
    pub resolved: bool,
}

/// The mathematical image of a [`SyncConflict`].
#[verifier::ext_equal]
pub struct SyncConflictView {
    pub id: Seq<char>,
    pub user_id: Seq<char>,
    pub data_id: Seq<char>,
    pub local_version: SyncRecordView,
    pub remote_version: SyncRecordView,
    pub conflict_type: ConflictType,
    pub created_at: u64,
    pub resolved: bool,
}

impl View for SyncConflict {
    type V = SyncConflictView;

    open spec fn view(&self) -> SyncConflictView {
        SyncConflictView {
            id: self.id@,
            user_id: self.user_id@,
            data_id: self.data_id@,
            local_version: self.local_version@,
            remote_version: self.remote_version@,
            conflict_type: self.conflict_type,
            created_at: self.created_at,
            resolved: self.resolved,
        }
    }
}

impl SyncConflict {
    /// A field-for-field copy carrying the same view.
    pub fn duplicate(&self) -> (r: Self)
        ensures
            r@ == self@,
    {
        SyncConflict {
            id: self.id.clone(),
            user_id: self.user_id.clone(),
            data_id: self.data_id.clone(),
            local_version: self.local_version.duplicate(),
            remote_version: self.remote_version.duplicate(),
            conflict_type: self.conflict_type,
            created_at: self.created_at,
            resolved: self.resolved,
        }
    }
}

/// The views of a sequence of operations.
pub open spec fn oview(s: Seq<OfflineOperation>) -> Seq<OfflineOperationView> {
    s.map_values(|o: OfflineOperation| o@)
}

/// The views of a sequence of cache entries.
pub open spec fn cview(s: Seq<OfflineCache>) -> Seq<OfflineCacheView> {
    s.map_values(|c: OfflineCache| c@)
}

/// The views of a sequence of conflicts.
pub open spec fn confview(s: Seq<SyncConflict>) -> Seq<SyncConflictView> {
    s.map_values(|c: SyncConflict| c@)
}

/// The views of a sequence of strings.
pub open spec fn sview(s: Seq<String>) -> Seq<Seq<char>> {
    s.map_values(|x: String| x@)
}

/// Whether `a` must be served strictly before `b`: higher priority first,
/// then older `created_at` first within a priority class.
pub open spec fn op_before(a: OfflineOperationView, b: OfflineOperationView) -> bool {
    priority_rank(a.priority) > priority_rank(b.priority) || (priority_rank(a.priority)
        == priority_rank(b.priority) && a.created_at < b.created_at)
}

/// The index the scan of the first `n` queue entries settles on: the first
/// entry no other entry in the prefix must be served before.
pub open spec fn best_idx_upto(q: Seq<OfflineOperationView>, n: int) -> int
    decreases n,
{
    if n <= 1 {
        0
    } else {
        let b = best_idx_upto(q, n - 1);
        if op_before(q[n - 1], q[b]) {
            n - 1
        } else {
            b
        }
    }
}

/// The queue position served next: the earliest-queued entry among those of
/// the best (priority, age) class.
pub open spec fn best_idx(q: Seq<OfflineOperationView>) -> int {
    best_idx_upto(q, q.len() as int)
}

/// The settled index lies in the scanned prefix, nothing in the prefix must
/// be served before it, and it is strictly before every entry queued ahead of
/// it — the scan is stable.
pub proof fn lemma_best_idx_props(q: Seq<OfflineOperationView>, n: int)
    requires
        1 <= n <= q.len(),
    ensures
        0 <= best_idx_upto(q, n) < n,
        forall|j: int| 0 <= j < n ==> !op_before(#[trigger] q[j], q[best_idx_upto(q, n)]),
        forall|j: int| 0 <= j < best_idx_upto(q, n) ==> op_before(q[best_idx_upto(q, n)], #[trigger] q[j]),
    decreases n,
{
    if n > 1 {
        lemma_best_idx_props(q, n - 1);
    }
}

/// The requeued form of a failed operation: the same write, one more failed
/// attempt on record.
pub open spec fn retried(op: OfflineOperationView) -> OfflineOperationView {
    OfflineOperationView { retry_count: (op.retry_count + 1) as u32, ..op }
}

/// What one drain of the queue leaves behind and reports.
#[verifier::ext_equal]
pub struct ProcessTrace {
    /// The operations still queued when processing stopped.
    pub queue: Seq<OfflineOperationView>,
    /// Identifiers of operations applied successfully, in processing order.
    pub processed: Seq<Seq<char>>,
    /// Identifiers of operations dropped after exhausting their retry budget,
    /// in processing order.
    pub failed: Seq<Seq<char>>,
}

/// The complete behaviour of draining the queue against a sequence of
/// apply outcomes, one outcome per attempt: the best-placed operation is
/// attempted first; success removes it for good, failure re-queues it at the
/// back until its retry budget `max_retries` is spent, after which it is
/// dropped and reported as permanently failed. Processing stops when the
/// queue or the outcomes run out.
pub open spec fn process_model(q: Seq<OfflineOperationView>, outs: Seq<bool>) -> ProcessTrace
    decreases outs.len(),
{
    if q.len() == 0 || outs.len() == 0 {
        ProcessTrace { queue: q, processed: Seq::empty(), failed: Seq::empty() }
    } else {
        let i = best_idx(q);
        let op = q[i];
        let rest = q.remove(i);
        if outs[0] {
            let t = process_model(rest, outs.drop_first());
            ProcessTrace { queue: t.queue, processed: seq![op.id] + t.processed, failed: t.failed }
        } else if op.retry_count + 1 < op.max_retries {
            process_model(rest.push(retried(op)), outs.drop_first())
        } else {
            let t = process_model(rest, outs.drop_first());
            ProcessTrace { queue: t.queue, processed: t.processed, failed: seq![op.id] + t.failed }
        }
    }
}

/// The mathematical image of the offline manager.
#[verifier::ext_equal]
pub struct OfflineManagerView {
    pub queue: Seq<OfflineOperationView>,
    pub cache: Seq<OfflineCacheView>,
    pub conflicts: Seq<SyncConflictView>,
    pub max_cache_size: u64,
    pub max_queue_size: usize,
}

/// Whether a cache entry is still valid at `now`.
pub open spec fn cache_live(e: OfflineCacheView, now: u64) -> bool {
    match e.expires_at {
        None => true,
        Some(x) => now <= x,
    }
}

/// Total bytes held by the cache.
pub open spec fn total_cache_size(c: Seq<OfflineCacheView>) -> int
    decreases c.len(),
{
    if c.len() == 0 {
        0
    } else {
        total_cache_size(c.drop_last()) + c.last().size_bytes
    }
}

/// Entries ordered oldest first, so eviction can drop a prefix.
pub open spec fn cache_sorted(c: Seq<OfflineCacheView>) -> bool {
    forall|a: int, b: int|
        0 <= a < b < c.len() ==> (#[trigger] c[a].created_at) <= (#[trigger] c[b].created_at)
}

/// No two entries share a key.
pub open spec fn cache_keys_unique(c: Seq<OfflineCacheView>) -> bool {
    forall|a: int, b: int|
        0 <= a < b < c.len() ==> (#[trigger] c[a].key) != (#[trigger] c[b].key)
}

/// The position of the entry stored under `key`, if one is.
pub open spec fn cache_find(c: Seq<OfflineCacheView>, key: Seq<char>) -> Option<int> {
    if exists|i: int| 0 <= i < c.len() && (#[trigger] c[i].key) == key {
        Some(choose|i: int| 0 <= i < c.len() && (#[trigger] c[i].key) == key)
    } else {
        None
    }
}

/// Priority-ordered operation queue with bounded retries, expiring
/// size-bounded cache, and conflict inbox — this device's local, recoverable
/// state.
pub struct OfflineDataManager {
    operation_queue: Vec<OfflineOperation>,
    cache_storage: Vec<OfflineCache>,
    conflict_queue: Vec<SyncConflict>,
    max_cache_size: u64,
    max_queue_size: usize,
}

impl View for OfflineDataManager {
    type V = OfflineManagerView;

    closed spec fn view(&self) -> OfflineManagerView {
        OfflineManagerView {
            queue: oview(self.operation_queue@),
            cache: cview(self.cache_storage@),
            conflicts: confview(self.conflict_queue@),
            max_cache_size: self.max_cache_size,
            max_queue_size: self.max_queue_size,
        }
    }
}

impl OfflineDataManager {
    /// Structural soundness: the cache is age-ordered with unique keys.
    pub open spec fn wf(&self) -> bool {
        cache_sorted(self@.cache) && cache_keys_unique(self@.cache)
    }

    /// An empty manager with the default cache ceiling and queue bound.
    pub fn new() -> (s: Self)
        ensures
            s.wf(),
            s@.queue.len() == 0,
            s@.cache.len() == 0,
            s@.conflicts.len() == 0,
            s@.max_cache_size == DEFAULT_MAX_CACHE_SIZE,
            s@.max_queue_size == DEFAULT_MAX_QUEUE_SIZE,
    {
        Self::with_limits(DEFAULT_MAX_CACHE_SIZE, DEFAULT_MAX_QUEUE_SIZE)
    }

    /// An empty manager with explicit capacity bounds.
    pub fn with_limits(max_cache_size: u64, max_queue_size: usize) -> (s: Self)
        ensures
            s.wf(),
            s@.queue.len() == 0,
            s@.cache.len() == 0,
            s@.conflicts.len() == 0,
            s@.max_cache_size == max_cache_size,
            s@.max_queue_size == max_queue_size,
    {
        let s = OfflineDataManager {
            operation_queue: Vec::new(),
            cache_storage: Vec::new(),
            conflict_queue: Vec::new(),
            max_cache_size,
            max_queue_size,
        };
        proof {
            assert(oview(s.operation_queue@) =~= Seq::<OfflineOperationView>::empty());
            assert(cview(s.cache_storage@) =~= Seq::<OfflineCacheView>::empty());
            assert(confview(s.conflict_queue@) =~= Seq::<SyncConflictView>::empty());
        }
        s
    }

    /// Queues a fully built operation, rejecting it when the queue is at its
    /// bound: explicit backpressure, never silent loss of a queued write.
    pub fn enqueue_operation(&mut self, op: OfflineOperation) -> (r: Result<(), OfflineError>)
        requires
            old(self).wf(),
        ensures
            final(self).wf(),
            final(self)@.cache == old(self)@.cache,
            final(self)@.conflicts == old(self)@.conflicts,
            final(self)@.max_cache_size == old(self)@.max_cache_size,
            final(self)@.max_queue_size == old(self)@.max_queue_size,
            old(self)@.queue.len() < old(self)@.max_queue_size ==> r is Ok && final(self)@.queue
                == old(self)@.queue.push(op@),
            old(self)@.queue.len() >= old(self)@.max_queue_size ==> r == Err::<(), OfflineError>(
                OfflineError::QueueFull,
            ) && final(self)@.queue == old(self)@.queue,
    {
        if self.operation_queue.len() >= self.max_queue_size {
            return Err(OfflineError::QueueFull);
        }
        self.operation_queue.push(op);
        proof {
            assert(oview(self.operation_queue@) =~= oview(old(self).operation_queue@).push(
                self.operation_queue@.last()@,
            ));
        }
        Ok(())
    }

    /// Builds and queues an offline operation for a write that could not be
    /// confirmed delivered: a fresh identifier, the current time, an
    /// untouched retry budget. Returns the operation's identifier, or the
    /// queue-full rejection.
    pub fn add_offline_operation(
        &mut self,
        user_id: &str,
        device_id: &str,
        operation_type: SyncOperation,
        data_type: SyncDataType,
        data_id: &str,
        data_payload: &str,
        priority: OperationPriority,
    ) -> (r: Result<String, OfflineError>)
        requires
            old(self).wf(),
        ensures
            final(self).wf(),
            final(self)@.cache == old(self)@.cache,
            final(self)@.conflicts == old(self)@.conflicts,
            final(self)@.max_cache_size == old(self)@.max_cache_size,
            final(self)@.max_queue_size == old(self)@.max_queue_size,
            old(self)@.queue.len() >= old(self)@.max_queue_size ==> r == Err::<
                String,
                OfflineError,
            >(OfflineError::QueueFull) && final(self)@.queue == old(self)@.queue,
            old(self)@.queue.len() < old(self)@.max_queue_size ==> r is Ok && {
                let q = final(self)@.queue;
                &&& q.len() == old(self)@.queue.len() + 1
                &&& q.take(q.len() - 1) == old(self)@.queue
                &&& q.last().id == r.unwrap()@
                &&& q.last().id.len() == 36
                &&& q.last().user_id == user_id@
                &&& q.last().device_id == device_id@
                &&& q.last().operation_type == operation_type
                &&& q.last().data_type == data_type
                &&& q.last().data_id == data_id@
                &&& q.last().data_payload == data_payload@
                &&& q.last().retry_count == 0
                &&& q.last().max_retries == DEFAULT_MAX_RETRIES
                &&& q.last().priority == priority
            },
    {
        if self.operation_queue.len() >= self.max_queue_size {
            return Err(OfflineError::QueueFull);
        }
        let id = platform::new_uuid();
        let op = OfflineOperation {
            id: id.clone(),
            user_id: user_id.to_owned(),
            device_id: device_id.to_owned(),
            operation_type,
            data_type,
            data_id: data_id.to_owned(),
            data_payload: data_payload.to_owned(),
            created_at: platform::now_ms(),
            retry_count: 0,
            max_retries: DEFAULT_MAX_RETRIES,
            priority,
        };
        let result = self.enqueue_operation(op);
        proof {
            assert(final(self)@.queue.take(final(self)@.queue.len() - 1) =~= old(self)@.queue);
        }
        match result {
            Ok(_) => Ok(id),
            Err(e) => Err(e),
        }
    }

    /// Removes and returns the operation to attempt next: the oldest entry of
    /// the highest priority class present.
    pub fn next_operation(&mut self) -> (r: Option<OfflineOperation>)
        requires
            old(self).wf(),
        ensures
            final(self).wf(),
            final(self)@.cache == old(self)@.cache,
            final(self)@.conflicts == old(self)@.conflicts,
            final(self)@.max_cache_size == old(self)@.max_cache_size,
            final(self)@.max_queue_size == old(self)@.max_queue_size,
            old(self)@.queue.len() == 0 ==> r is None && final(self)@.queue == old(self)@.queue,
            old(self)@.queue.len() > 0 ==> {
                let i = best_idx(old(self)@.queue);
                &&& r is Some
                &&& r.unwrap()@ == old(self)@.queue[i]
                &&& final(self)@.queue == old(self)@.queue.remove(i)
            },
    {
        let n = self.operation_queue.len();
        if n == 0 {
            return None;
        }
        let ghost q = oview(self.operation_queue@);
        let mut best: usize = 0;
        let mut k: usize = 1;
        while k < n
            invariant
                n == self.operation_queue@.len(),
                q == oview(self.operation_queue@),
                1 <= k <= n,
                best < k,
                best as int == best_idx_upto(q, k as int),
            decreases n - k,
        {
            proof {
                assert(q[k as int] == self.operation_queue@[k as int]@);
                assert(q[best as int] == self.operation_queue@[best as int]@);
            }
            if op_before_exec(&self.operation_queue[k], &self.operation_queue[best]) {
                best = k;
            }
            k = k + 1;
        }
        proof {
            lemma_best_idx_props(q, n as int);
        }
        let op = self.operation_queue.remove(best);
        proof {
            assert(oview(self.operation_queue@) =~= q.remove(best as int));
        }
        Some(op)
    }

    /// Re-queues a failed operation at the back with one more failed attempt
    /// on record, unless its retry budget is spent; in that case the
    /// operation is dropped and its identifier returned so the caller can
    /// report it as permanently failed — never silently discarded.
    pub fn requeue_failed(&mut self, op: OfflineOperation) -> (dropped: Option<String>)
        requires
            old(self).wf(),
        ensures
            final(self).wf(),
            final(self)@.cache == old(self)@.cache,
            final(self)@.conflicts == old(self)@.conflicts,
            final(self)@.max_cache_size == old(self)@.max_cache_size,
            final(self)@.max_queue_size == old(self)@.max_queue_size,
            op@.retry_count + 1 < op@.max_retries ==> dropped is None && final(self)@.queue == old(
                self,
            )@.queue.push(retried(op@)),
            op@.retry_count + 1 >= op@.max_retries ==> dropped is Some && dropped.unwrap()@
                == op@.id && final(self)@.queue == old(self)@.queue,
    {
        if (op.retry_count as u64) + 1 < (op.max_retries as u64) {
            let mut updated = op;
            updated.retry_count = updated.retry_count + 1;
            self.operation_queue.push(updated);
            proof {
                assert(oview(self.operation_queue@) =~= oview(old(self).operation_queue@).push(
                    self.operation_queue@.last()@,
                ));
            }
            None
        } else {
            Some(op.id)
        }
    }
}

/// What one drain of the queue reported: which operations were applied and
/// which were dropped as permanently failed. A permanent failure is always
/// reported, never silently discarded.
pub struct ProcessReport {
    /// Identifiers of operations applied successfully, in processing order.
    pub processed: Vec<String>,
    /// Identifiers of operations dropped after exhausting their retry budget.
    pub failed: Vec<String>,
}

impl OfflineDataManager {
    /// Drains the queue in priority order against one apply outcome per
    /// attempt: success removes the operation permanently, failure re-queues
    /// it at the back until its retry budget is spent, after which it is
    /// dropped and reported as permanently failed. Processing stops when the
    /// queue or the outcomes run out; the result is exactly
    /// [`process_model`] of the starting queue and the outcomes.
    pub fn process_offline_queue(&mut self, outcomes: &Vec<bool>) -> (r: ProcessReport)
        requires
            old(self).wf(),
        ensures
            final(self).wf(),
            final(self)@.cache == old(self)@.cache,
            final(self)@.conflicts == old(self)@.conflicts,
            final(self)@.max_cache_size == old(self)@.max_cache_size,
            final(self)@.max_queue_size == old(self)@.max_queue_size,
            ({
                let t = process_model(old(self)@.queue, outcomes@);
                &&& final(self)@.queue == t.queue
                &&& sview(r.processed@) == t.processed
                &&& sview(r.failed@) == t.failed
            }),
    {
        let mut processed: Vec<String> = Vec::new();
        let mut failed: Vec<String> = Vec::new();
        let mut k: usize = 0;
        proof {
            assert(outcomes@.skip(0) =~= outcomes@);
            assert(sview(processed@) =~= Seq::<Seq<char>>::empty());
            assert(sview(failed@) =~= Seq::<Seq<char>>::empty());
            assert(sview(processed@) + process_model(self@.queue, outcomes@).processed
                =~= process_model(self@.queue, outcomes@).processed);
            assert(sview(failed@) + process_model(self@.queue, outcomes@).failed =~= process_model(
                self@.queue,
                outcomes@,
            ).failed);
        }
        while k < outcomes.len() && self.operation_queue.len() > 0
            invariant
                self.wf(),
                self@.cache == old(self)@.cache,
                self@.conflicts == old(self)@.conflicts,
                self@.max_cache_size == old(self)@.max_cache_size,
                self@.max_queue_size == old(self)@.max_queue_size,
                k <= outcomes@.len(),
                ({
                    let t0 = process_model(old(self)@.queue, outcomes@);
                    let t = process_model(self@.queue, outcomes@.skip(k as int));
                    &&& t0.queue == t.queue
                    &&& t0.processed == sview(processed@) + t.processed
                    &&& t0.failed == sview(failed@) + t.failed
                }),
            decreases outcomes@.len() - k,
        {
            let ghost qcur = self@.queue;
            let ghost outs_cur = outcomes@.skip(k as int);
            proof {
                assert(outs_cur[0] == outcomes@[k as int]);
                assert(outs_cur.drop_first() =~= outcomes@.skip(k as int + 1));
            }
            let opt = self.next_operation();
            let op = opt.unwrap();
            let ghost pre_processed = sview(processed@);
            let ghost pre_failed = sview(failed@);
            if outcomes[k] {
                processed.push(op.id);
                proof {
                    assert(sview(processed@) =~= pre_processed.push(qcur[best_idx(qcur)].id));
                    let t = process_model(self@.queue, outs_cur.drop_first());
                    assert(pre_processed + (seq![qcur[best_idx(qcur)].id] + t.processed)
                        =~= sview(processed@) + t.processed);
                }
            } else {
                let dropped = self.requeue_failed(op);
                match dropped {
                    Some(id) => {
                        failed.push(id);
                        proof {
                            assert(sview(failed@) =~= pre_failed.push(qcur[best_idx(qcur)].id));
                            let t = process_model(self@.queue, outs_cur.drop_first());
                            assert(pre_failed + (seq![qcur[best_idx(qcur)].id] + t.failed)
                                =~= sview(failed@) + t.failed);
                        }
                    },
                    None => {},
                }
            }
            k = k + 1;
        }
        proof {
            let t = process_model(self@.queue, outcomes@.skip(k as int));
            if self@.queue.len() == 0 || k as int == outcomes@.len() {
                if k as int == outcomes@.len() {
                    assert(outcomes@.skip(k as int) =~= Seq::<bool>::empty());
                }
                assert(t.queue == self@.queue);
                assert(sview(processed@) + t.processed =~= sview(processed@));
                assert(sview(failed@) + t.failed =~= sview(failed@));
            }
        }
        ProcessReport { processed, failed }
    }
}

/// The order one drain with unbroken success serves a queue in: repeatedly
/// the oldest entry of the highest priority class present. The unreachable
/// guard keeps the recursion well-founded; [`lemma_best_idx_props`] shows the
/// selected index is always in range.
pub open spec fn selection_order(q: Seq<OfflineOperationView>) -> Seq<OfflineOperationView>
    decreases q.len(),
{
    if q.len() == 0 {
        Seq::empty()
    } else {
        let i = best_idx(q);
        if 0 <= i < q.len() {
            seq![q[i]] + selection_order(q.remove(i))
        } else {
            Seq::empty()
        }
    }
}

/// Queue fairness: the selection order is a permutation of the queue in
/// which no operation is served after one it must precede — higher
/// priorities first, older entries first within a priority class.
pub proof fn lemma_selection_order_props(q: Seq<OfflineOperationView>)
    ensures
        selection_order(q).to_multiset() == q.to_multiset(),
        selection_order(q).len() == q.len(),
        forall|a: int, b: int|
            0 <= a < b < selection_order(q).len() ==> !op_before(
                #[trigger] selection_order(q)[b],
                #[trigger] selection_order(q)[a],
            ),
    decreases q.len(),
{
    if q.len() == 0 {
        assert(selection_order(q).to_multiset() =~= q.to_multiset());
    } else {
        lemma_best_idx_props(q, q.len() as int);
        let i = best_idx(q);
        let rest = q.remove(i);
        q.remove_ensures(i);
        lemma_selection_order_props(rest);
        let sel = selection_order(q);
        assert(sel == seq![q[i]] + selection_order(rest));
        assert(sel =~= selection_order(rest).insert(0, q[i]));
        assert(q.to_multiset().count(q[i]) > 0) by {
            assert(q.contains(q[i]));
        }
        assert(sel.to_multiset() =~= q.to_multiset());
        assert forall|b: int| 1 <= b < sel.len() implies !op_before(sel[b], q[i]) by {
            assert(sel[b] == selection_order(rest)[b - 1]);
            assert(selection_order(rest).contains(sel[b])) by {
                assert(selection_order(rest).to_multiset().count(sel[b]) > 0);
            }
            assert(rest.contains(sel[b])) by {
                assert(rest.to_multiset().count(sel[b]) > 0);
            }
            let j = choose|j: int| 0 <= j < rest.len() && rest[j] == sel[b];
            if j < i {
                assert(rest[j] == q[j]);
            } else {
                assert(rest[j] == q[j + 1]);
            }
        }
        assert forall|a: int, b: int| 0 <= a < b < sel.len() implies !op_before(
            sel[b],
            sel[a],
        ) by {
            if a == 0 {
                assert(sel[0] == q[i]);
            } else {
                assert(sel[a] == selection_order(rest)[a - 1]);
                assert(sel[b] == selection_order(rest)[b - 1]);
            }
        }
    }
}

/// With every apply succeeding and enough outcomes, one drain empties the
/// queue, reports no failures, and applies the operations exactly in the
/// fair selection order.
pub proof fn lemma_process_all_success(q: Seq<OfflineOperationView>, outs: Seq<bool>)
    requires
        outs.len() >= q.len(),
        forall|i: int| 0 <= i < outs.len() ==> #[trigger] outs[i],
    ensures
        process_model(q, outs).queue.len() == 0,
        process_model(q, outs).failed.len() == 0,
        process_model(q, outs).processed == selection_order(q).map_values(
            |o: OfflineOperationView| o.id,
        ),
    decreases q.len(),
{
    let ids = |o: OfflineOperationView| o.id;
    if q.len() == 0 {
        assert(process_model(q, outs).processed =~= selection_order(q).map_values(ids));
    } else {
        lemma_best_idx_props(q, q.len() as int);
        let i = best_idx(q);
        let rest = q.remove(i);
        q.remove_ensures(i);
        assert(outs[0]);
        lemma_process_all_success(rest, outs.drop_first());
        assert(process_model(q, outs).processed =~= seq![q[i].id] + process_model(
            rest,
            outs.drop_first(),
        ).processed);
        assert(selection_order(q) == seq![q[i]] + selection_order(rest));
        assert(selection_order(q).map_values(ids) =~= seq![q[i].id] + selection_order(
            rest,
        ).map_values(ids));
    }
}

/// Retry exhaustion: an operation whose every apply attempt fails is
/// attempted exactly its remaining retry budget of times, then dropped from
/// the queue and reported as permanently failed — the emptied queue leaves
/// nothing for any further attempt.
pub proof fn lemma_retry_exhaustion(op: OfflineOperationView, outs: Seq<bool>)
    requires
        forall|i: int| 0 <= i < outs.len() ==> !(#[trigger] outs[i]),
        op.retry_count < op.max_retries,
        op.retry_count + outs.len() == op.max_retries,
    ensures
        process_model(seq![op], outs).queue.len() == 0,
        process_model(seq![op], outs).processed.len() == 0,
        process_model(seq![op], outs).failed == seq![op.id],
    decreases outs.len(),
{
    reveal_with_fuel(process_model, 2);
    let q = seq![op];
    assert(best_idx(q) == 0);
    assert(q.remove(0) =~= Seq::<OfflineOperationView>::empty());
    assert(!outs[0]);
    if op.retry_count + 1 < op.max_retries {
        assert(q.remove(0).push(retried(op)) =~= seq![retried(op)]);
        lemma_retry_exhaustion(retried(op), outs.drop_first());
        assert(process_model(q, outs).failed =~= seq![op.id]);
    } else {
        assert(outs.len() == 1);
        assert(outs.drop_first() =~= Seq::<bool>::empty());
        assert(process_model(q, outs).failed =~= seq![op.id]);
    }
}

/// Fewer all-failing attempts than the retry budget leave the operation
/// queued, its original `created_at` preserved, with one more failed attempt
/// on record per outcome — it is neither reported nor lost.
pub proof fn lemma_retry_keeps_queued(op: OfflineOperationView, outs: Seq<bool>)
    requires
        forall|i: int| 0 <= i < outs.len() ==> !(#[trigger] outs[i]),
        op.retry_count + outs.len() < op.max_retries,
    ensures
        process_model(seq![op], outs).queue == seq![
            OfflineOperationView { retry_count: (op.retry_count + outs.len()) as u32, ..op },
        ],
        process_model(seq![op], outs).processed.len() == 0,
        process_model(seq![op], outs).failed.len() == 0,
    decreases outs.len(),
{
    reveal_with_fuel(process_model, 2);
    let q = seq![op];
    if outs.len() == 0 {
        assert(process_model(q, outs).queue =~= seq![
            OfflineOperationView { retry_count: (op.retry_count + 0) as u32, ..op },
        ]);
    } else {
        assert(best_idx(q) == 0);
        assert(!outs[0]);
        assert(q.remove(0).push(retried(op)) =~= seq![retried(op)]);
        lemma_retry_keeps_queued(retried(op), outs.drop_first());
        assert(process_model(q, outs).queue =~= seq![
            OfflineOperationView { retry_count: (op.retry_count + outs.len()) as u32, ..op },
        ]);
    }
}

/// Saturating addition on timestamps: the far future rather than wrap-around.
pub open spec fn sat_add(a: u64, b: u64) -> u64 {
    if a + b <= u64::MAX {
        (a + b) as u64
    } else {
        u64::MAX
    }
}

/// Saturating subtraction on timestamps: the epoch rather than wrap-around.
pub open spec fn sat_sub(a: u64, b: u64) -> u64 {
    if a >= b {
        (a - b) as u64
    } else {
        0
    }
}

/// The expiry a cache entry stored at `now` with the given lifetime carries.
pub open spec fn expiry_of(now: u64, ttl_ms: Option<u64>) -> Option<u64> {
    match ttl_ms {
        None => None,
        Some(t) => Some(sat_add(now, t)),
    }
}

/// The cache after the entry under `key`, if any, is dropped.
pub open spec fn cache_without(c: Seq<OfflineCacheView>, key: Seq<char>) -> Seq<OfflineCacheView> {
    match cache_find(c, key) {
        Some(i) => c.remove(i),
        None => c,
    }
}

impl OfflineDataManager {
    /// The position of the entry stored under `key`, if one is.
    fn find_cache_index(&self, key: &str) -> (r: Option<usize>)
        requires
            self.wf(),
        ensures
            match r {
                Some(i) => i < self@.cache.len() && cache_find(self@.cache, key@) == Some(i as int),
                None => cache_find(self@.cache, key@) is None,
            },
    {
        let n = self.cache_storage.len();
        let mut k: usize = 0;
        while k < n
            invariant
                self.wf(),
                n == self@.cache.len(),
                k <= n,
                forall|i: int| 0 <= i < k ==> (#[trigger] self@.cache[i].key) != key@,
            decreases n - k,
        {
            if strutil::str_eq(self.cache_storage[k].key.as_str(), key) {
                proof {
                    assert(self@.cache[k as int].key == key@);
                    let w = choose|i: int|
                        0 <= i < self@.cache.len() && (#[trigger] self@.cache[i].key) == key@;
                    if w != k as int {
                        assert(self@.cache[w].key != self@.cache[k as int].key);
                    }
                }
                return Some(k);
            }
            k = k + 1;
        }
        None
    }

    /// Drops the cache entry at a known position.
    fn remove_cache_at(&mut self, i: usize)
        requires
            old(self).wf(),
            i < old(self)@.cache.len(),
        ensures
            final(self).wf(),
            final(self)@.queue == old(self)@.queue,
            final(self)@.conflicts == old(self)@.conflicts,
            final(self)@.max_cache_size == old(self)@.max_cache_size,
            final(self)@.max_queue_size == old(self)@.max_queue_size,
            final(self)@.cache == old(self)@.cache.remove(i as int),
    {
        self.cache_storage.remove(i);
        proof {
            let oldc = old(self)@.cache;
            assert(cview(self.cache_storage@) =~= oldc.remove(i as int));
            oldc.remove_ensures(i as int);
            let cur = cview(self.cache_storage@);
            assert forall|a: int, b: int| 0 <= a < b < cur.len() implies (#[trigger] cur[a].created_at)
                <= (#[trigger] cur[b].created_at) && (#[trigger] cur[a].key) != (
            #[trigger] cur[b].key) by {
                let a0 = if a < i as int { a } else { a + 1 };
                let b0 = if b < i as int { b } else { b + 1 };
                assert(cur[a] == oldc[a0]);
                assert(cur[b] == oldc[b0]);
            }
        }
    }

    /// Removes the entry stored under `key` from the cache; keys not present
    /// are left alone.
    pub fn remove_cached_data(&mut self, key: &str)
        requires
            old(self).wf(),
        ensures
            final(self).wf(),
            final(self)@.queue == old(self)@.queue,
            final(self)@.conflicts == old(self)@.conflicts,
            final(self)@.max_cache_size == old(self)@.max_cache_size,
            final(self)@.max_queue_size == old(self)@.max_queue_size,
            final(self)@.cache == cache_without(old(self)@.cache, key@),
            forall|i: int|
                0 <= i < final(self)@.cache.len() ==> (#[trigger] final(self)@.cache[i].key)
                    != key@,
    {
        let found = self.find_cache_index(key);
        match found {
            Some(i) => {
                proof {
                    let oldc = self@.cache;
                    let w = cache_find(oldc, key@).unwrap();
                    oldc.remove_ensures(w);
                    assert forall|j: int|
                        0 <= j < oldc.remove(w).len() implies (#[trigger] oldc.remove(w)[j].key)
                            != key@ by {
                        let j0 = if j < w {
                            j
                        } else {
                            j + 1
                        };
                        assert(oldc.remove(w)[j] == oldc[j0]);
                        if j0 != w {
                            assert(oldc[j0].key != oldc[w].key);
                        }
                    }
                }
                self.remove_cache_at(i);
            },
            None => {
                proof {
                    assert forall|i: int|
                        0 <= i < self@.cache.len() implies (#[trigger] self@.cache[i].key)
                            != key@ by {
                        if self@.cache[i].key == key@ {
                            assert(exists|j: int|
                                0 <= j < self@.cache.len() && (#[trigger] self@.cache[j].key)
                                    == key@);
                        }
                    }
                }
            },
        }
    }

    /// One eviction pass: drops the oldest quarter of the cache, rounded up,
    /// so each pass frees at least one entry.
    pub fn cleanup_old_cache_items(&mut self)
        requires
            old(self).wf(),
        ensures
            final(self).wf(),
            final(self)@.queue == old(self)@.queue,
            final(self)@.conflicts == old(self)@.conflicts,
            final(self)@.max_cache_size == old(self)@.max_cache_size,
            final(self)@.max_queue_size == old(self)@.max_queue_size,
            final(self)@.cache == old(self)@.cache.skip(
                (old(self)@.cache.len() + 3) as int / 4,
            ),
    {
        let n = self.cache_storage.len();
        if n == 0 {
            proof {
                assert(old(self)@.cache.skip(0) =~= old(self)@.cache);
            }
            return ;
        }
        let count = (n - 1) / 4 + 1;
        proof {
            assert(count == (n + 3) as int / 4);
            assert(count <= n);
        }
        let mut j: usize = 0;
        while j < count
            invariant
                j <= count,
                count <= n,
                n == old(self)@.cache.len(),
                self.wf(),
                self@.queue == old(self)@.queue,
                self@.conflicts == old(self)@.conflicts,
                self@.max_cache_size == old(self)@.max_cache_size,
                self@.max_queue_size == old(self)@.max_queue_size,
                self@.cache == old(self)@.cache.skip(j as int),
            decreases count - j,
        {
            self.remove_cache_at(0);
            proof {
                assert(old(self)@.cache.skip(j as int).remove(0) =~= old(self)@.cache.skip(
                    j as int + 1,
                ));
            }
            j = j + 1;
        }
    }
}

/// What storing `data` under `key` at time `now` does: the key's previous
/// entry is replaced; when the new total would exceed the ceiling, the
/// oldest entries are evicted — never the new one rejected — and the new
/// entry is placed in age order.
pub open spec fn cache_data_post(
    pre: OfflineManagerView,
    post: OfflineManagerView,
    key: Seq<char>,
    data: Seq<char>,
    size: u64,
    data_type: SyncDataType,
    ttl_ms: Option<u64>,
    now: u64,
) -> bool {
    let e = OfflineCacheView {
        key,
        data,
        data_type,
        created_at: now,
        expires_at: expiry_of(now, ttl_ms),
        size_bytes: size,
    };
    let mid = cache_without(pre.cache, key);
    &&& post.queue == pre.queue
    &&& post.conflicts == pre.conflicts
    &&& post.max_cache_size == pre.max_cache_size
    &&& post.max_queue_size == pre.max_queue_size
    &&& exists|k: int, pos: int|
        #![trigger mid.skip(k).insert(pos, e)]
        {
            &&& 0 <= k <= mid.len()
            &&& 0 <= pos <= mid.skip(k).len()
            &&& post.cache == mid.skip(k).insert(pos, e)
            &&& (forall|j: int| 0 <= j < pos ==> (#[trigger] mid.skip(k)[j].created_at) <= now)
            &&& (pos < mid.skip(k).len() ==> mid.skip(k)[pos].created_at > now)
            &&& (total_cache_size(mid.skip(k)) + e.size_bytes <= pre.max_cache_size || mid.skip(
                k,
            ).len() == 0)
            &&& (k == 0 || total_cache_size(mid) + e.size_bytes > pre.max_cache_size)
        }
}

/// What reading `key` at time `now` does and returns: the live entry's data,
/// or nothing — with an entry past its expiry removed from the store, never
/// returned stale.
pub open spec fn get_cached_post(
    pre: OfflineManagerView,
    post: OfflineManagerView,
    key: Seq<char>,
    r: Option<Seq<char>>,
    now: u64,
) -> bool {
    &&& post.queue == pre.queue
    &&& post.conflicts == pre.conflicts
    &&& post.max_cache_size == pre.max_cache_size
    &&& post.max_queue_size == pre.max_queue_size
    &&& match cache_find(pre.cache, key) {
        None => r is None && post.cache == pre.cache,
        Some(i) => {
            if cache_live(pre.cache[i], now) {
                &&& r is Some
                &&& r.unwrap() == pre.cache[i].data
                &&& post.cache == pre.cache
            } else {
                &&& r is None
                &&& post.cache == pre.cache.remove(i)
            }
        },
    }
}

/// What one sweep at time `now` does: expired cache entries and resolved
/// conflicts past the retention window are purged, everything else kept.
pub open spec fn cleanup_post(pre: OfflineManagerView, post: OfflineManagerView, now: u64) -> bool {
    &&& post.queue == pre.queue
    &&& post.max_cache_size == pre.max_cache_size
    &&& post.max_queue_size == pre.max_queue_size
    &&& post.cache == pre.cache.filter(live_pred(now))
    &&& post.conflicts == pre.conflicts.filter(conflict_keep_pred(now))
}

/// A caller-supplied cache lifetime in seconds, clamped at zero and widened
/// to saturating milliseconds.
pub open spec fn ttl_ms_of(secs: i64) -> u64 {
    if secs <= 0 {
        0
    } else {
        crate::sync_config::secs_to_ms(secs as u64)
    }
}

/// A caller-supplied optional lifetime in seconds, in milliseconds.
pub open spec fn ttl_opt_ms(secs: Option<i64>) -> Option<u64> {
    match secs {
        None => None,
        Some(s) => Some(ttl_ms_of(s)),
    }
}

/// The view of an optional string.
pub open spec fn osview(o: Option<String>) -> Option<Seq<char>> {
    match o {
        Some(s) => Some(s@),
        None => None,
    }
}

impl OfflineDataManager {
    /// Total bytes currently held by the cache. The sum is carried in 128
    /// bits, which cannot wrap for any representable cache.
    fn current_cache_total(&self) -> (t: u128)
        ensures
            t == total_cache_size(self@.cache),
    {
        let n = self.cache_storage.len();
        let mut t: u128 = 0;
        let mut k: usize = 0;
        proof {
            assert(self@.cache.take(0) =~= Seq::<OfflineCacheView>::empty());
        }
        while k < n
            invariant
                n == self@.cache.len(),
                k <= n,
                t == total_cache_size(self@.cache.take(k as int)),
                t <= (k as u128) * 0xFFFF_FFFF_FFFF_FFFFu128,
            decreases n - k,
        {
            let s = self.cache_storage[k].size_bytes;
            proof {
                let taken = self@.cache.take(k as int + 1);
                assert(taken.drop_last() =~= self@.cache.take(k as int));
                assert(taken.last() == self@.cache[k as int]);
                assert(self@.cache[k as int] == self.cache_storage@[k as int]@);
                assert((k as u128 + 1) * 0xFFFF_FFFF_FFFF_FFFFu128 == (k as u128)
                    * 0xFFFF_FFFF_FFFF_FFFFu128 + 0xFFFF_FFFF_FFFF_FFFFu128) by (nonlinear_arith);
            }
            t = t + (s as u128);
            k = k + 1;
        }
        proof {
            assert(self@.cache.take(n as int) =~= self@.cache);
        }
        t
    }

    /// Stores `data` under `key` as of time `now`, replacing any previous
    /// entry for the key. If the new total would exceed the cache ceiling,
    /// the oldest quarter of the entries is evicted, again and again until
    /// the new entry fits or nothing is left to evict — eviction, never
    /// rejection. The entry expires `ttl_ms` after `now`, or never.
    #[verifier::rlimit(50)]
    pub fn cache_data_at(
        &mut self,
        key: &str,
        data: &str,
        data_type: SyncDataType,
        ttl_ms: Option<u64>,
        now: u64,
    )
        requires
            old(self).wf(),
        ensures
            final(self).wf(),
            final(self)@.queue == old(self)@.queue,
            final(self)@.conflicts == old(self)@.conflicts,
            final(self)@.max_cache_size == old(self)@.max_cache_size,
            final(self)@.max_queue_size == old(self)@.max_queue_size,
            cache_data_post(
                old(self)@,
                final(self)@,
                key@,
                data@,
                (data.spec_bytes().len() as usize) as u64,
                data_type,
                ttl_ms,
                now,
            ),
    {
        self.remove_cached_data(key);
        let ghost mid = self@.cache;
        let size_bytes = data.len() as u64;
        let expires_at = match ttl_ms {
            None => None,
            Some(t) => {
                if t <= u64::MAX - now {
                    Some(now + t)
                } else {
                    Some(u64::MAX)
                }
            },
        };
        let entry = OfflineCache {
            key: key.to_owned(),
            data: data.to_owned(),
            data_type,
            created_at: now,
            expires_at,
            size_bytes,
        };
        let ghost e = entry@;
        let mut total = self.current_cache_total();
        let ghost mut kg: int = 0;
        proof {
            assert(mid.skip(0) =~= mid);
        }
        while self.cache_storage.len() > 0 && (total > (self.max_cache_size as u128) || (
        size_bytes as u128) > (self.max_cache_size as u128) - total)
            invariant
                self.wf(),
                self@.queue == old(self)@.queue,
                self@.conflicts == old(self)@.conflicts,
                self@.max_cache_size == old(self)@.max_cache_size,
                self@.max_queue_size == old(self)@.max_queue_size,
                0 <= kg <= mid.len(),
                self@.cache == mid.skip(kg),
                total == total_cache_size(self@.cache),
                size_bytes == e.size_bytes,
                kg == 0 || total_cache_size(mid) + e.size_bytes > old(self)@.max_cache_size,
            decreases self@.cache.len(),
        {
            proof {
                if kg == 0 {
                    assert(mid.skip(0) =~= mid);
                    assert(total_cache_size(mid) + e.size_bytes > old(self)@.max_cache_size);
                }
            }
            let ghost before = self@.cache.len() as int;
            self.cleanup_old_cache_items();
            proof {
                let step = (before + 3) / 4;
                assert(step >= 1);
                assert(mid.skip(kg).skip(step) =~= mid.skip(kg + step));
                kg = kg + step;
            }
            total = self.current_cache_total();
        }
        proof {
            assert(self@.cache.len() == 0 || total_cache_size(self@.cache) + e.size_bytes <= old(
                self,
            )@.max_cache_size);
        }
        let ghost trimmed = self@.cache;
        let n = self.cache_storage.len();
        let mut pos: usize = 0;
        while pos < n && self.cache_storage[pos].created_at <= now
            invariant
                n == self@.cache.len(),
                pos <= n,
                self@.cache == trimmed,
                forall|j: int| 0 <= j < pos ==> (#[trigger] trimmed[j].created_at) <= now,
            decreases n - pos,
        {
            proof {
                assert(trimmed[pos as int] == self.cache_storage@[pos as int]@);
            }
            pos = pos + 1;
        }
        proof {
            assert(pos < n ==> self.cache_storage@[pos as int]@.created_at > now);
        }
        self.cache_storage.insert(pos, entry);
        proof {
            assert(cview(self.cache_storage@) =~= trimmed.insert(pos as int, e));
            let cur = cview(self.cache_storage@);
            assert forall|a: int, b: int| 0 <= a < b < cur.len() implies (#[trigger] cur[a].created_at)
                <= (#[trigger] cur[b].created_at) && (#[trigger] cur[a].key) != (
            #[trigger] cur[b].key) by {
                let pi = pos as int;
                if a == pi {
                    assert(cur[b] == trimmed[b - 1]);
                    assert(trimmed[b - 1].created_at > now);
                    assert(trimmed[b - 1].key != key@) by {
                        assert(trimmed[b - 1] == mid[kg + b - 1]);
                    }
                } else if b == pi {
                    assert(cur[a] == trimmed[a]);
                    assert(trimmed[a].key != key@) by {
                        assert(trimmed[a] == mid[kg + a]);
                    }
                } else {
                    let a0 = if a < pi { a } else { a - 1 };
                    let b0 = if b < pi { b } else { b - 1 };
                    assert(cur[a] == trimmed[a0]);
                    assert(cur[b] == trimmed[b0]);
                }
            }
            assert(0 <= pos as int <= trimmed.len());
            assert(forall|j: int| 0 <= j < pos as int ==> (#[trigger] trimmed[j].created_at) <= now);
            assert((pos as int) < trimmed.len() ==> trimmed[pos as int].created_at > now);
            assert(cview(self.cache_storage@) == mid.skip(kg).insert(pos as int, e));
            assert(total_cache_size(mid.skip(kg)) + e.size_bytes <= old(self)@.max_cache_size
                || mid.skip(kg).len() == 0);
        }
    }

    /// The data cached under `key`, checked for expiry lazily at read time: a
    /// value past its expiry is removed from the store and reported as
    /// absent, never returned stale.
    pub fn get_cached_data_at(&mut self, key: &str, now: u64) -> (r: Option<String>)
        requires
            old(self).wf(),
        ensures
            final(self).wf(),
            get_cached_post(
                old(self)@,
                final(self)@,
                key@,
                match r {
                    Some(s) => Some(s@),
                    None => None,
                },
                now,
            ),
    {
        let found = self.find_cache_index(key);
        match found {
            None => None,
            Some(i) => {
                let expired = match self.cache_storage[i].expires_at {
                    Some(x) => now > x,
                    None => false,
                };
                proof {
                    assert(self@.cache[i as int] == self.cache_storage@[i as int]@);
                }
                if expired {
                    self.remove_cache_at(i);
                    None
                } else {
                    Some(self.cache_storage[i].data.clone())
                }
            },
        }
    }
}

impl OfflineDataManager {
    /// Restores operations persisted by a previous run, queuing them behind
    /// anything already queued. Order does not matter: serving order is
    /// decided at dequeue time.
    pub fn load_pending_operations(&mut self, ops: Vec<OfflineOperation>)
        requires
            old(self).wf(),
        ensures
            final(self).wf(),
            final(self)@.cache == old(self)@.cache,
            final(self)@.conflicts == old(self)@.conflicts,
            final(self)@.max_cache_size == old(self)@.max_cache_size,
            final(self)@.max_queue_size == old(self)@.max_queue_size,
            final(self)@.queue == old(self)@.queue + oview(ops@),
    {
        let ghost orig = oview(ops@);
        let mut ops = ops;
        let mut j: usize = 0;
        let n = ops.len();
        proof {
            assert(oview(self.operation_queue@) + orig.take(0) =~= oview(self.operation_queue@));
            assert(oview(ops@) =~= orig.skip(0));
        }
        while j < n
            invariant
                self.wf(),
                self@.cache == old(self)@.cache,
                self@.conflicts == old(self)@.conflicts,
                self@.max_cache_size == old(self)@.max_cache_size,
                self@.max_queue_size == old(self)@.max_queue_size,
                j <= n,
                orig.len() == n,
                n == j + ops@.len(),
                oview(ops@) == orig.skip(j as int),
                self@.queue == old(self)@.queue + orig.take(j as int),
            decreases n - j,
        {
            let ghost pre = self@.queue;
            let ghost ops_pre = ops@;
            let op = ops.remove(0);
            proof {
                assert(op@ == oview(ops_pre)[0]);
                assert(oview(ops_pre)[0] == orig.skip(j as int)[0]);
                assert(orig.skip(j as int)[0] == orig[j as int]);
                assert(ops@ =~= ops_pre.skip(1));
                assert(oview(ops_pre.skip(1)) =~= oview(ops_pre).skip(1));
                assert(orig.skip(j as int).skip(1) =~= orig.skip(j as int + 1));
            }
            self.operation_queue.push(op);
            proof {
                assert(oview(self.operation_queue@) =~= pre.push(orig[j as int]));
                assert(pre.push(orig[j as int]) =~= old(self)@.queue + orig.take(j as int + 1));
            }
            j = j + 1;
        }
        proof {
            assert(orig.take(n as int) =~= orig);
        }
    }

    /// Restores cache entries persisted by a previous run into an empty
    /// cache, as a `created_at`-ordered scan of the persisted table yields
    /// them: oldest first, each key once.
    pub fn load_cache_data(&mut self, entries: Vec<OfflineCache>)
        requires
            old(self).wf(),
            old(self)@.cache.len() == 0,
            cache_sorted(cview(entries@)),
            cache_keys_unique(cview(entries@)),
        ensures
            final(self).wf(),
            final(self)@.queue == old(self)@.queue,
            final(self)@.conflicts == old(self)@.conflicts,
            final(self)@.max_cache_size == old(self)@.max_cache_size,
            final(self)@.max_queue_size == old(self)@.max_queue_size,
            final(self)@.cache == cview(entries@),
    {
        let ghost orig = cview(entries@);
        let mut entries = entries;
        let mut j: usize = 0;
        let n = entries.len();
        proof {
            assert(cview(entries@) =~= orig.skip(0));
            assert(self@.cache =~= orig.take(0));
        }
        while j < n
            invariant
                self@.queue == old(self)@.queue,
                self@.conflicts == old(self)@.conflicts,
                self@.max_cache_size == old(self)@.max_cache_size,
                self@.max_queue_size == old(self)@.max_queue_size,
                j <= n,
                orig.len() == n,
                n == j + entries@.len(),
                cache_sorted(orig),
                cache_keys_unique(orig),
                cview(entries@) == orig.skip(j as int),
                self@.cache == orig.take(j as int),
            decreases n - j,
        {
            let ghost pre = self@.cache;
            let ghost entries_pre = entries@;
            let e = entries.remove(0);
            proof {
                assert(e@ == cview(entries_pre)[0]);
                assert(cview(entries_pre)[0] == orig.skip(j as int)[0]);
                assert(orig.skip(j as int)[0] == orig[j as int]);
                assert(entries@ =~= entries_pre.skip(1));
                assert(cview(entries_pre.skip(1)) =~= cview(entries_pre).skip(1));
                assert(orig.skip(j as int).skip(1) =~= orig.skip(j as int + 1));
            }
            self.cache_storage.push(e);
            proof {
                assert(cview(self.cache_storage@) =~= pre.push(orig[j as int]));
                assert(pre.push(orig[j as int]) =~= orig.take(j as int + 1));
            }
            j = j + 1;
        }
        proof {
            assert(orig.take(n as int) =~= orig);
            assert forall|a: int, b: int| 0 <= a < b < self@.cache.len() implies (
            #[trigger] self@.cache[a].created_at) <= (#[trigger] self@.cache[b].created_at) && (
            self@.cache[a].key) != (self@.cache[b].key) by {
                assert(self@.cache[a] == orig[a]);
                assert(self@.cache[b] == orig[b]);
            }
        }
    }
}

/// Membership test for cache entries still valid at `now`.
pub open spec fn live_pred(now: u64) -> spec_fn(OfflineCacheView) -> bool {
    |e: OfflineCacheView| cache_live(e, now)
}

/// Membership test for conflicts the cleanup keeps: everything except
/// resolved conflicts older than the retention window.
pub open spec fn conflict_keep_pred(now: u64) -> spec_fn(SyncConflictView) -> bool {
    |c: SyncConflictView|
        !(c.resolved && c.created_at < sat_sub(now, RESOLVED_CONFLICT_RETENTION_MS))
}

/// Membership test for one user's operations.
pub open spec fn user_ops_pred(user_id: Seq<char>) -> spec_fn(OfflineOperationView) -> bool {
    |o: OfflineOperationView| o.user_id == user_id
}

/// Membership test for one user's open conflicts.
pub open spec fn unresolved_pred(user_id: Seq<char>) -> spec_fn(SyncConflictView) -> bool {
    |c: SyncConflictView| c.user_id == user_id && !c.resolved
}

/// Dropping entries keeps the cache age-ordered with unique keys.
proof fn lemma_cache_filter_wf(c: Seq<OfflineCacheView>, p: spec_fn(OfflineCacheView) -> bool)
    requires
        cache_sorted(c),
        cache_keys_unique(c),
    ensures
        cache_sorted(c.filter(p)),
        cache_keys_unique(c.filter(p)),
    decreases c.len(),
{
    reveal(Seq::filter);
    if c.len() != 0 {
        let d = c.drop_last();
        lemma_cache_filter_wf(d, p);
        let f = d.filter(p);
        if p(c.last()) {
            let g = f.push(c.last());
            assert(c.filter(p) == g);
            assert forall|a: int| 0 <= a < f.len() implies (#[trigger] f[a].created_at)
                <= c.last().created_at && f[a].key != c.last().key by {
                assert(f.contains(f[a]));
                d.lemma_filter_contains_rev(p, f[a]);
                let j = choose|j: int| 0 <= j < d.len() && d[j] == f[a];
                assert(c[j] == d[j]);
            }
            assert forall|a: int, b: int| 0 <= a < b < g.len() implies (#[trigger] g[a].created_at)
                <= (#[trigger] g[b].created_at) by {
                if b == f.len() as int {
                    assert(g[a] == f[a]);
                } else {
                    assert(g[a] == f[a] && g[b] == f[b]);
                }
            }
            assert forall|a: int, b: int| 0 <= a < b < g.len() implies (#[trigger] g[a].key) != (
            #[trigger] g[b].key) by {
                if b == f.len() as int {
                    assert(g[a] == f[a]);
                    assert(f[a].created_at <= c.last().created_at && f[a].key != c.last().key);
                } else {
                    assert(g[a] == f[a] && g[b] == f[b]);
                }
            }
        }
    }
}

impl OfflineDataManager {
    /// Sweeps expired cache entries and purges resolved conflicts older than
    /// the retention window, as of time `now`. Open conflicts and live
    /// entries are untouched.
    pub fn cleanup_expired_data_at(&mut self, now: u64)
        requires
            old(self).wf(),
        ensures
            final(self).wf(),
            cleanup_post(old(self)@, final(self)@, now),
    {
        let ghost oldc = self@.cache;
        let ghost p = live_pred(now);
        let mut i: usize = 0;
        let ghost mut j: int = 0;
        proof {
            assert(oldc.take(0).filter(p) =~= Seq::<OfflineCacheView>::empty());
            assert(oldc.skip(0) =~= oldc);
            assert(oldc.take(0).filter(p) + oldc.skip(0) =~= oldc);
        }
        while i < self.cache_storage.len()
            invariant
                self@.queue == old(self)@.queue,
                self@.conflicts == old(self)@.conflicts,
                self@.max_cache_size == old(self)@.max_cache_size,
                self@.max_queue_size == old(self)@.max_queue_size,
                p == live_pred(now),
                0 <= j <= oldc.len(),
                i as int == oldc.take(j).filter(p).len(),
                self@.cache == oldc.take(j).filter(p) + oldc.skip(j),
                self@.cache.len() == i + oldc.len() - j,
            decreases oldc.len() - j,
        {
            let ghost pre = self@.cache;
            proof {
                assert(pre[i as int] == oldc.skip(j)[0]);
                assert(oldc.skip(j)[0] == oldc[j]);
                assert(oldc.take(j + 1) =~= oldc.take(j).push(oldc[j]));
                assert(oldc.skip(j).drop_first() =~= oldc.skip(j + 1));
            }
            let keep = match self.cache_storage[i].expires_at {
                Some(x) => now <= x,
                None => true,
            };
            proof {
                assert(self.cache_storage@[i as int]@ == pre[i as int]);
                assert(keep == p(oldc[j]));
            }
            if keep {
                proof {
                    assert(oldc.take(j + 1).filter(p) + oldc.skip(j + 1) =~= pre);
                }
                i = i + 1;
            } else {
                self.cache_storage.remove(i);
                proof {
                    assert(cview(self.cache_storage@) =~= pre.remove(i as int));
                    assert(pre.remove(i as int) =~= oldc.take(j + 1).filter(p) + oldc.skip(j + 1));
                }
            }
            proof {
                j = j + 1;
            }
        }
        proof {
            assert(oldc.take(oldc.len() as int) =~= oldc);
            assert(oldc.skip(oldc.len() as int) =~= Seq::<OfflineCacheView>::empty());
            assert(self@.cache =~= oldc.filter(p));
            lemma_cache_filter_wf(oldc, p);
        }
        let ghost oldk = self@.conflicts;
        let ghost q = conflict_keep_pred(now);
        let cutoff = if now >= RESOLVED_CONFLICT_RETENTION_MS {
            now - RESOLVED_CONFLICT_RETENTION_MS
        } else {
            0
        };
        let mut i2: usize = 0;
        let ghost mut j2: int = 0;
        proof {
            assert(oldk.take(0).filter(q) =~= Seq::<SyncConflictView>::empty());
            assert(oldk.skip(0) =~= oldk);
            assert(oldk.take(0).filter(q) + oldk.skip(0) =~= oldk);
        }
        while i2 < self.conflict_queue.len()
            invariant
                self@.queue == old(self)@.queue,
                self@.cache == old(self)@.cache.filter(live_pred(now)),
                self.wf(),
                self@.max_cache_size == old(self)@.max_cache_size,
                self@.max_queue_size == old(self)@.max_queue_size,
                q == conflict_keep_pred(now),
                cutoff == sat_sub(now, RESOLVED_CONFLICT_RETENTION_MS),
                0 <= j2 <= oldk.len(),
                i2 as int == oldk.take(j2).filter(q).len(),
                self@.conflicts == oldk.take(j2).filter(q) + oldk.skip(j2),
                self@.conflicts.len() == i2 + oldk.len() - j2,
            decreases oldk.len() - j2,
        {
            let ghost pre = self@.conflicts;
            proof {
                assert(pre[i2 as int] == oldk.skip(j2)[0]);
                assert(oldk.skip(j2)[0] == oldk[j2]);
                assert(oldk.take(j2 + 1) =~= oldk.take(j2).push(oldk[j2]));
                assert(oldk.skip(j2).drop_first() =~= oldk.skip(j2 + 1));
            }
            let keep = !(self.conflict_queue[i2].resolved && self.conflict_queue[i2].created_at
                < cutoff);
            proof {
                assert(self.conflict_queue@[i2 as int]@ == pre[i2 as int]);
                assert(keep == q(oldk[j2]));
            }
            if keep {
                proof {
                    assert(oldk.take(j2 + 1).filter(q) + oldk.skip(j2 + 1) =~= pre);
                }
                i2 = i2 + 1;
            } else {
                self.conflict_queue.remove(i2);
                proof {
                    assert(confview(self.conflict_queue@) =~= pre.remove(i2 as int));
                    assert(pre.remove(i2 as int) =~= oldk.take(j2 + 1).filter(q) + oldk.skip(
                        j2 + 1,
                    ));
                }
            }
            proof {
                j2 = j2 + 1;
            }
        }
        proof {
            assert(oldk.take(oldk.len() as int) =~= oldk);
            assert(oldk.skip(oldk.len() as int) =~= Seq::<SyncConflictView>::empty());
            assert(self@.conflicts =~= oldk.filter(q));
        }
    }

    /// Records a conflict with every field supplied by the caller, open for
    /// an explicit resolution.
    pub fn record_conflict_at(
        &mut self,
        user_id: &str,
        data_id: &str,
        local_version: SyncRecord,
        remote_version: SyncRecord,
        conflict_type: ConflictType,
        id: String,
        created_at: u64,
    )
        requires
            old(self).wf(),
        ensures
            final(self).wf(),
            final(self)@.queue == old(self)@.queue,
            final(self)@.cache == old(self)@.cache,
            final(self)@.max_cache_size == old(self)@.max_cache_size,
            final(self)@.max_queue_size == old(self)@.max_queue_size,
            final(self)@.conflicts == old(self)@.conflicts.push(
                SyncConflictView {
                    id: id@,
                    user_id: user_id@,
                    data_id: data_id@,
                    local_version: local_version@,
                    remote_version: remote_version@,
                    conflict_type,
                    created_at,
                    resolved: false,
                },
            ),
    {
        let conflict = SyncConflict {
            id,
            user_id: user_id.to_owned(),
            data_id: data_id.to_owned(),
            local_version,
            remote_version,
            conflict_type,
            created_at,
            resolved: false,
        };
        self.conflict_queue.push(conflict);
        proof {
            assert(confview(self.conflict_queue@) =~= confview(old(self).conflict_queue@).push(
                self.conflict_queue@.last()@,
            ));
        }
    }

    /// Records a conflict between two change records for the same entity,
    /// stamped with a fresh identifier and the current time, and returns the
    /// conflict's identifier. Recording is the audit trail even for
    /// conflicts that are auto-resolved.
    pub fn record_conflict(
        &mut self,
        user_id: &str,
        data_id: &str,
        local_version: SyncRecord,
        remote_version: SyncRecord,
        conflict_type: ConflictType,
    ) -> (r: String)
        requires
            old(self).wf(),
        ensures
            final(self).wf(),
            final(self)@.queue == old(self)@.queue,
            final(self)@.cache == old(self)@.cache,
            final(self)@.max_cache_size == old(self)@.max_cache_size,
            final(self)@.max_queue_size == old(self)@.max_queue_size,
            final(self)@.conflicts.len() == old(self)@.conflicts.len() + 1,
            final(self)@.conflicts.take(old(self)@.conflicts.len() as int) == old(self)@.conflicts,
            ({
                let c = final(self)@.conflicts.last();
                &&& c.id == r@
                &&& c.id.len() == 36
                &&& c.user_id == user_id@
                &&& c.data_id == data_id@
                &&& c.local_version == local_version@
                &&& c.remote_version == remote_version@
                &&& c.conflict_type == conflict_type
                &&& !c.resolved
            }),
    {
        let id = platform::new_uuid();
        let created_at = platform::now_ms();
        let r = id.clone();
        self.record_conflict_at(
            user_id,
            data_id,
            local_version,
            remote_version,
            conflict_type,
            id,
            created_at,
        );
        proof {
            assert(final(self)@.conflicts.take(old(self)@.conflicts.len() as int) =~= old(
                self,
            )@.conflicts);
        }
        r
    }

    /// One user's conflicts still awaiting an explicit resolution, in
    /// recording order.
    pub fn get_unresolved_conflicts(&self, user_id: &str) -> (r: Vec<SyncConflict>)
        ensures
            confview(r@) == self@.conflicts.filter(unresolved_pred(user_id@)),
    {
        let ghost p = unresolved_pred(user_id@);
        let mut out: Vec<SyncConflict> = Vec::new();
        let n = self.conflict_queue.len();
        let mut k: usize = 0;
        proof {
            assert(confview(out@) =~= self@.conflicts.take(0).filter(p));
        }
        while k < n
            invariant
                n == self@.conflicts.len(),
                k <= n,
                p == unresolved_pred(user_id@),
                confview(out@) == self@.conflicts.take(k as int).filter(p),
            decreases n - k,
        {
            let ghost pre = confview(out@);
            if strutil::str_eq(self.conflict_queue[k].user_id.as_str(), user_id)
                && !self.conflict_queue[k].resolved {
                let dup = self.conflict_queue[k].duplicate();
                out.push(dup);
                proof {
                    assert(confview(out@) =~= pre.push(self@.conflicts[k as int]));
                }
            }
            proof {
                assert(self@.conflicts.take(k as int + 1) =~= self@.conflicts.take(k as int).push(
                    self@.conflicts[k as int],
                ));
                assert(self@.conflicts[k as int] == self.conflict_queue@[k as int]@);
            }
            k = k + 1;
        }
        proof {
            assert(self@.conflicts.take(n as int) =~= self@.conflicts);
        }
        out
    }

    /// Marks the first conflict recorded under `conflict_id` resolved with
    /// the supplied record; an unknown identifier changes nothing. Resolved
    /// conflicts are retained for the retention window as an audit trail.
    pub fn resolve_conflict(&mut self, conflict_id: &str, resolution: SyncRecord)
        requires
            old(self).wf(),
        ensures
            final(self).wf(),
            final(self)@.queue == old(self)@.queue,
            final(self)@.cache == old(self)@.cache,
            final(self)@.max_cache_size == old(self)@.max_cache_size,
            final(self)@.max_queue_size == old(self)@.max_queue_size,
            (exists|i: int|
                0 <= i < old(self)@.conflicts.len() && (#[trigger] old(self)@.conflicts[i].id)
                    == conflict_id@) ==> {
                let i = choose|i: int|
                    0 <= i < old(self)@.conflicts.len() && (#[trigger] old(
                        self,
                    )@.conflicts[i].id) == conflict_id@ && (forall|j: int|
                        0 <= j < i ==> (#[trigger] old(self)@.conflicts[j].id) != conflict_id@);
                final(self)@.conflicts == old(self)@.conflicts.update(
                    i,
                    SyncConflictView { resolved: true, ..old(self)@.conflicts[i] },
                )
            },
            !(exists|i: int|
                0 <= i < old(self)@.conflicts.len() && (#[trigger] old(self)@.conflicts[i].id)
                    == conflict_id@) ==> final(self)@.conflicts == old(self)@.conflicts,
    {
        // The chosen record is applied by the caller; the inbox keeps only
        // the resolved mark, as its audit trail.
        let _ = resolution;
        let n = self.conflict_queue.len();
        let mut k: usize = 0;
        while k < n
            invariant
                self.wf(),
                self == old(self),
                n == self@.conflicts.len(),
                k <= n,
                forall|j: int| 0 <= j < k ==> (#[trigger] self@.conflicts[j].id) != conflict_id@,
            decreases n - k,
        {
            if strutil::str_eq(self.conflict_queue[k].id.as_str(), conflict_id) {
                proof {
                    assert(self@.conflicts[k as int].id == conflict_id@);
                }
                let mut c = self.conflict_queue.remove(k);
                c.resolved = true;
                self.conflict_queue.insert(k, c);
                proof {
                    let oldc = old(self)@.conflicts;
                    assert(confview(self.conflict_queue@) =~= oldc.update(
                        k as int,
                        SyncConflictView { resolved: true, ..oldc[k as int] },
                    ));
                    let w = choose|i: int|
                        0 <= i < oldc.len() && (#[trigger] oldc[i].id) == conflict_id@ && (
                        forall|j: int| 0 <= j < i ==> (#[trigger] oldc[j].id) != conflict_id@);
                    assert(oldc[k as int].id == conflict_id@ && (forall|j: int|
                        0 <= j < k as int ==> (#[trigger] oldc[j].id) != conflict_id@));
                    if w < k as int {
                        assert(oldc[w].id != conflict_id@);
                    }
                    if w > k as int {
                        assert(oldc[k as int].id != conflict_id@);
                    }
                    assert(w == k as int);
                }
                return ;
            }
            k = k + 1;
        }
    }

    /// One user's queued operations in the order they would be served:
    /// highest priority first, oldest first within a priority class.
    pub fn get_offline_queue(&self, user_id: &str) -> (r: Vec<OfflineOperation>)
        ensures
            oview(r@).to_multiset() == self@.queue.filter(user_ops_pred(user_id@)).to_multiset(),
            forall|a: int, b: int|
                0 <= a < b < r@.len() ==> !op_before(#[trigger] oview(r@)[b], #[trigger] oview(
                    r@,
                )[a]),
    {
        let ghost p = user_ops_pred(user_id@);
        let mut out: Vec<OfflineOperation> = Vec::new();
        let n = self.operation_queue.len();
        let mut k: usize = 0;
        proof {
            assert(self@.queue.take(0).filter(p) =~= Seq::<OfflineOperationView>::empty());
            assert(oview(out@) =~= Seq::<OfflineOperationView>::empty());
        }
        while k < n
            invariant
                n == self@.queue.len(),
                k <= n,
                p == user_ops_pred(user_id@),
                oview(out@).to_multiset() == self@.queue.take(k as int).filter(p).to_multiset(),
                forall|a: int, b: int|
                    0 <= a < b < out@.len() ==> !op_before(
                        #[trigger] oview(out@)[b],
                        #[trigger] oview(out@)[a],
                    ),
            decreases n - k,
        {
            let ghost pre = oview(out@);
            let matches = strutil::str_eq(self.operation_queue[k].user_id.as_str(), user_id);
            if matches {
                let dup = self.operation_queue[k].duplicate();
                let ghost dv = dup@;
                let m = out.len();
                let mut idx: usize = 0;
                while idx < m && !op_before_exec(&dup, &out[idx])
                    invariant
                        m == out@.len(),
                        idx <= m,
                        oview(out@) == pre,
                        dv == dup@,
                        forall|j: int| 0 <= j < idx ==> !op_before(dv, #[trigger] oview(out@)[j]),
                    decreases m - idx,
                {
                    proof {
                        assert(oview(out@)[idx as int] == out@[idx as int]@);
                    }
                    idx = idx + 1;
                }
                proof {
                    assert(idx < m ==> op_before(dv, oview(out@)[idx as int]));
                }
                out.insert(idx, dup);
                proof {
                    assert(oview(out@) =~= pre.insert(idx as int, dv));
                    let cur = oview(out@);
                    assert forall|a: int, b: int| 0 <= a < b < cur.len() implies !op_before(
                        cur[b],
                        cur[a],
                    ) by {
                        if a == idx as int && b > idx as int {
                            assert(cur[b] == pre[b - 1]);
                        } else if a < idx as int && b == idx as int {
                            assert(cur[a] == pre[a]);
                        } else if a < idx as int && b > idx as int {
                            assert(cur[a] == pre[a] && cur[b] == pre[b - 1]);
                        } else if b < idx as int {
                            assert(cur[a] == pre[a] && cur[b] == pre[b]);
                        } else if a > idx as int {
                            assert(cur[a] == pre[a - 1] && cur[b] == pre[b - 1]);
                        }
                    }
                    assert(cur.to_multiset() =~= pre.to_multiset().insert(dv));
                }
            }
            proof {
                assert(self@.queue.take(k as int + 1) =~= self@.queue.take(k as int).push(
                    self@.queue[k as int],
                ));
                assert(self@.queue[k as int] == self.operation_queue@[k as int]@);
                if matches {
                    assert(p(self@.queue[k as int]));
                } else {
                    assert(!p(self@.queue[k as int]));
                }
            }
            k = k + 1;
        }
        proof {
            assert(self@.queue.take(n as int) =~= self@.queue);
        }
        out
    }
}

/// The entity-layer call a queued operation asks for; performing it is the
/// application-data layer's job, deciding it is the engine's.
#[derive(Clone, Copy, Debug, PartialEq, Eq, Structural)]
pub enum ApplyAction {
    CreateChatMessage,
    UpdateUserProfile,
    DeleteFriend,
    NoAction,
}

/// The routing of operation and data kinds to entity-layer calls.
pub open spec fn apply_action_spec(op: SyncOperation, data: SyncDataType) -> ApplyAction {
    match (op, data) {
        (SyncOperation::Create, SyncDataType::ChatMessage) => ApplyAction::CreateChatMessage,
        (SyncOperation::Update, SyncDataType::UserProfile) => ApplyAction::UpdateUserProfile,
        (SyncOperation::Delete, SyncDataType::Friend) => ApplyAction::DeleteFriend,
        _ => ApplyAction::NoAction,
    }
}

/// Decides which entity-layer call applying this operation takes; the call
/// itself is the caller's to perform.
pub fn apply_action(op: &OfflineOperation) -> (a: ApplyAction)
    ensures
        a == apply_action_spec(op@.operation_type, op@.data_type),
{
    match (op.operation_type, op.data_type) {
        (SyncOperation::Create, SyncDataType::ChatMessage) => ApplyAction::CreateChatMessage,
        (SyncOperation::Update, SyncDataType::UserProfile) => ApplyAction::UpdateUserProfile,
        (SyncOperation::Delete, SyncDataType::Friend) => ApplyAction::DeleteFriend,
        _ => ApplyAction::NoAction,
    }
}

impl OfflineDataManager {
    /// Stores `data` under `key` as of the current clock reading, replacing
    /// any previous entry and evicting the oldest entries if the ceiling
    /// would be exceeded. The entry expires `ttl_seconds` from now;
    /// non-positive lifetimes expire immediately, `None` never.
    pub fn cache_data(
        &mut self,
        key: &str,
        data: &str,
        data_type: SyncDataType,
        ttl_seconds: Option<i64>,
    )
        requires
            old(self).wf(),
        ensures
            final(self).wf(),
            exists|now: u64|
                #[trigger] cache_data_post(
                    old(self)@,
                    final(self)@,
                    key@,
                    data@,
                    (data.spec_bytes().len() as usize) as u64,
                    data_type,
                    ttl_opt_ms(ttl_seconds),
                    now,
                ),
    {
        let ttl_ms = match ttl_seconds {
            None => None,
            Some(s) => {
                if s <= 0 {
                    Some(0u64)
                } else {
                    let su = s as u64;
                    if su <= u64::MAX / 1000 {
                        Some(su * 1000)
                    } else {
                        Some(u64::MAX)
                    }
                }
            },
        };
        let now = platform::now_ms();
        self.cache_data_at(key, data, data_type, ttl_ms, now);
        proof {
            assert(ttl_ms == ttl_opt_ms(ttl_seconds));
            assert(cache_data_post(
                old(self)@,
                self@,
                key@,
                data@,
                (data.spec_bytes().len() as usize) as u64,
                data_type,
                ttl_opt_ms(ttl_seconds),
                now,
            ));
        }
    }

    /// The data cached under `key` as of the current clock reading, with
    /// lazy expiry: an entry past its expiry is removed, never returned.
    pub fn get_cached_data(&mut self, key: &str) -> (r: Option<String>)
        requires
            old(self).wf(),
        ensures
            final(self).wf(),
            exists|now: u64|
                #[trigger] get_cached_post(old(self)@, final(self)@, key@, osview(r), now),
    {
        let now = platform::now_ms();
        let r = self.get_cached_data_at(key, now);
        proof {
            assert(get_cached_post(old(self)@, self@, key@, osview(r), now));
        }
        r
    }

    /// Sweeps expired cache entries and purges resolved conflicts older than
    /// the retention window, as of the current clock reading.
    pub fn cleanup_expired_data(&mut self)
        requires
            old(self).wf(),
        ensures
            final(self).wf(),
            exists|now: u64| #[trigger] cleanup_post(old(self)@, final(self)@, now),
    {
        let now = platform::now_ms();
        self.cleanup_expired_data_at(now);
        proof {
            assert(cleanup_post(old(self)@, self@, now));
        }
    }
}

/// Whether `a` must be served strictly before `b`.
fn op_before_exec(a: &OfflineOperation, b: &OfflineOperation) -> (r: bool)
    ensures
        r == op_before(a@, b@),
{
    let ra = priority_value(a.priority);
    let rb = priority_value(b.priority);
    ra > rb || (ra == rb && a.created_at < b.created_at)
}

/// The numeric rank of a priority.
fn priority_value(p: OperationPriority) -> (r: u8)
    ensures
        r as int == priority_rank(p),
{
    match p {
        OperationPriority::Low => 0,
        OperationPriority::Normal => 1,
        OperationPriority::High => 2,
        OperationPriority::Critical => 3,
    }
}

} // verus!
