//! Cross-database synchronization: an event queue drained in timestamp order,
//! with a total routing rule deciding which store each event must be applied
//! to. Performing the database writes is the storage layer's job.

use vstd::prelude::*;
use crate::strutil;
use vstd::multiset::Multiset;

verus! {

broadcast use {
    vstd::seq_lib::group_filter_ensures,
    Seq::lemma_filter_push,
    vstd::seq_lib::group_to_multiset_ensures,
};

/// How many events may queue up before a drain is due.
pub const SYNC_QUEUE_THRESHOLD: usize = 100;

/// One recorded data change awaiting cross-database propagation.
#[derive(Debug)]
pub struct DataSyncEvent {
    pub event_type: String,
    pub table_name: String,
    pub record_id: String,
    /// The changed row, serialized by the storage layer.
    pub data: String,
    /// Milliseconds since the epoch.
    pub timestamp: u64,
}

/// The mathematical image of a [`DataSyncEvent`].
#[verifier::ext_equal]
pub struct DataSyncEventView {
    pub event_type: Seq<char>,
    pub table_name: Seq<char>,
    pub record_id: Seq<char>,
    pub data: Seq<char>,
    pub timestamp: u64,
}

impl View for DataSyncEvent {
    type V = DataSyncEventView;

    open spec fn view(&self) -> DataSyncEventView {
        DataSyncEventView {
            event_type: self.event_type@,
            table_name: self.table_name@,
            record_id: self.record_id@,
            data: self.data@,
            timestamp: self.timestamp,
        }
    }
}

/// The views of a sequence of events.
pub open spec fn eview(s: Seq<DataSyncEvent>) -> Seq<DataSyncEventView> {
    s.map_values(|e: DataSyncEvent| e@)
}

/// The views of a sequence of strings.
pub open spec fn idview(s: Seq<String>) -> Seq<Seq<char>> {
    s.map_values(|x: String| x@)
}

/// Membership test for identifiers missing from a reference list.
pub open spec fn missing_pred(known: Seq<Seq<char>>) -> spec_fn(Seq<char>) -> bool {
    |u: Seq<char>| !known.contains(u)
}

/// Which store an event must be propagated to.
#[derive(Clone, Copy, Debug, PartialEq, Eq, Structural)]
pub enum SyncTarget {
    /// The chat store: user updates are mirrored into chat sessions.
    ChatDatabase,
    /// The main store: session creation and file uploads are mirrored back.
    MainDatabase,
    /// Nothing to propagate for this event kind.
    NoTarget,
}

/// The total routing rule: every event kind has an explicit target.
pub open spec fn sync_target_spec(event_type: Seq<char>) -> SyncTarget {
    if event_type == "user_update"@ {
        SyncTarget::ChatDatabase
    } else if event_type == "session_create"@ {
        SyncTarget::MainDatabase
    } else if event_type == "file_upload"@ {
        SyncTarget::MainDatabase
    } else {
        SyncTarget::NoTarget
    }
}

/// Decides which store this event must be applied to; the write itself is
/// the storage layer's to perform.
pub fn sync_target(event: &DataSyncEvent) -> (t: SyncTarget)
    ensures
        t == sync_target_spec(event@.event_type),
{
    if strutil::str_eq(event.event_type.as_str(), "user_update") {
        SyncTarget::ChatDatabase
    } else if strutil::str_eq(event.event_type.as_str(), "session_create") {
        SyncTarget::MainDatabase
    } else if strutil::str_eq(event.event_type.as_str(), "file_upload") {
        SyncTarget::MainDatabase
    } else {
        SyncTarget::NoTarget
    }
}

/// Whether one of the identifiers holds the same characters as `id`.
fn contains_id(ids: &Vec<String>, id: &String) -> (r: bool)
    ensures
        r == idview(ids@).contains(id@),
{
    let n = ids.len();
    let mut k: usize = 0;
    while k < n
        invariant
            n == ids@.len(),
            k <= n,
            forall|j: int| 0 <= j < k ==> (#[trigger] idview(ids@)[j]) != id@,
        decreases n - k,
    {
        if strutil::str_eq(ids[k].as_str(), id.as_str()) {
            proof {
                assert(idview(ids@)[k as int] == id@);
            }
            return true;
        }
        proof {
            assert(idview(ids@)[k as int] == ids@[k as int]@);
        }
        k = k + 1;
    }
    proof {
        if idview(ids@).contains(id@) {
            let w = choose|j: int| 0 <= j < idview(ids@).len() && idview(ids@)[j] == id@;
            assert(idview(ids@)[w] != id@);
        }
    }
    false
}

/// Events arranged so that no later event carries an earlier timestamp.
pub open spec fn events_sorted(s: Seq<DataSyncEventView>) -> bool {
    forall|a: int, b: int|
        0 <= a < b < s.len() ==> (#[trigger] s[a].timestamp) <= (#[trigger] s[b].timestamp)
}

/// The cross-database synchronization queue.
pub struct DataSyncManager {
    sync_queue: Vec<DataSyncEvent>,
    is_syncing: bool,
}

/// The mathematical image of the manager.
#[verifier::ext_equal]
pub struct DataSyncManagerView {
    pub sync_queue: Seq<DataSyncEventView>,
    pub is_syncing: bool,
}

impl View for DataSyncManager {
    type V = DataSyncManagerView;

    closed spec fn view(&self) -> DataSyncManagerView {
        DataSyncManagerView { sync_queue: eview(self.sync_queue@), is_syncing: self.is_syncing }
    }
}

impl DataSyncManager {
    /// An empty queue, not draining.
    pub fn new() -> (s: Self)
        ensures
            s@.sync_queue.len() == 0,
            !s@.is_syncing,
    {
        let s = DataSyncManager { sync_queue: Vec::new(), is_syncing: false };
        proof {
            assert(eview(s.sync_queue@) =~= Seq::<DataSyncEventView>::empty());
        }
        s
    }

    /// Queues a change event and says whether the queue has grown past its
    /// threshold, in which case the caller should drain it.
    pub fn record_change(&mut self, event: DataSyncEvent) -> (drain_due: bool)
        ensures
            final(self)@.sync_queue == old(self)@.sync_queue.push(event@),
            final(self)@.is_syncing == old(self)@.is_syncing,
            drain_due == (final(self)@.sync_queue.len() > SYNC_QUEUE_THRESHOLD),
    {
        self.sync_queue.push(event);
        proof {
            assert(eview(self.sync_queue@) =~= eview(old(self).sync_queue@).push(
                self.sync_queue@.last()@,
            ));
        }
        self.sync_queue.len() > SYNC_QUEUE_THRESHOLD
    }

    /// The user identifiers the chat store references that the main store
    /// does not know: the inconsistencies one cross-check pass finds. The
    /// caller supplies both identifier lists, read from the stores.
    pub fn check_consistency(&self, main_user_ids: &Vec<String>, chat_user_ids: &Vec<String>) -> (r:
        Vec<String>)
        ensures
            idview(r@) == idview(chat_user_ids@).filter(missing_pred(idview(main_user_ids@))),
    {
        let ghost known = idview(main_user_ids@);
        let ghost p = missing_pred(known);
        let ghost chat = idview(chat_user_ids@);
        let mut out: Vec<String> = Vec::new();
        let n = chat_user_ids.len();
        let mut k: usize = 0;
        proof {
            assert(idview(out@) =~= chat.take(0).filter(p));
        }
        while k < n
            invariant
                n == chat.len(),
                chat == idview(chat_user_ids@),
                known == idview(main_user_ids@),
                p == missing_pred(known),
                k <= n,
                idview(out@) == chat.take(k as int).filter(p),
            decreases n - k,
        {
            let ghost pre = idview(out@);
            let missing = !contains_id(main_user_ids, &chat_user_ids[k]);
            proof {
                assert(chat[k as int] == chat_user_ids@[k as int]@);
                assert(missing == p(chat[k as int]));
            }
            if missing {
                out.push(chat_user_ids[k].clone());
                proof {
                    assert(idview(out@) =~= pre.push(chat[k as int]));
                }
            }
            proof {
                assert(chat.take(k as int + 1) =~= chat.take(k as int).push(chat[k as int]));
            }
            k = k + 1;
        }
        proof {
            assert(chat.take(n as int) =~= chat);
        }
        out
    }

    /// Takes every queued event, in non-decreasing timestamp order, leaving
    /// the queue empty — exactly the queued events, applied oldest first.
    /// Returns nothing and changes nothing while another drain is running.
    pub fn drain_events(&mut self) -> (r: Option<Vec<DataSyncEvent>>)
        ensures
            old(self)@.is_syncing ==> r is None && final(self)@ == old(self)@,
            !old(self)@.is_syncing ==> {
                &&& r is Some
                &&& eview(r.unwrap()@).to_multiset() == old(self)@.sync_queue.to_multiset()
                &&& events_sorted(eview(r.unwrap()@))
                &&& final(self)@.sync_queue.len() == 0
                &&& !final(self)@.is_syncing
            },
    {
        if self.is_syncing {
            return None;
        }
        self.is_syncing = true;
        let mut out: Vec<DataSyncEvent> = Vec::new();
        proof {
            assert(eview(out@) =~= Seq::<DataSyncEventView>::empty());
        }
        let ghost qv = eview(self.sync_queue@);
        while self.sync_queue.len() > 0
            invariant
                self@.is_syncing,
                eview(out@).to_multiset().add(self@.sync_queue.to_multiset()) == qv.to_multiset(),
                events_sorted(eview(out@)),
            decreases self@.sync_queue.len(),
        {
            let ghost pre_q = self@.sync_queue;
            let ev = self.sync_queue.pop().unwrap();
            proof {
                assert(pre_q == eview(self.sync_queue@).push(ev@));
                assert(eview(self.sync_queue@).push(ev@).to_multiset() =~= eview(
                    self.sync_queue@,
                ).to_multiset().insert(ev@));
            }
            let ghost pre = eview(out@);
            let m = out.len();
            let mut idx: usize = 0;
            while idx < m && out[idx].timestamp <= ev.timestamp
                invariant
                    m == out@.len(),
                    idx <= m,
                    eview(out@) == pre,
                    forall|j: int| 0 <= j < idx ==> (#[trigger] eview(out@)[j].timestamp) <= ev@.timestamp,
                decreases m - idx,
            {
                proof {
                    assert(eview(out@)[idx as int] == out@[idx as int]@);
                }
                idx = idx + 1;
            }
            proof {
                assert(idx < m ==> out@[idx as int]@.timestamp > ev@.timestamp);
                assert(idx < m ==> eview(out@)[idx as int].timestamp > ev@.timestamp);
            }
            let ghost dv = ev@;
            out.insert(idx, ev);
            proof {
                assert(eview(out@) =~= pre.insert(idx as int, dv));
                let cur = eview(out@);
                assert forall|a: int, b: int| 0 <= a < b < cur.len() implies (
                #[trigger] cur[a].timestamp) <= (#[trigger] cur[b].timestamp) by {
                    if a < idx as int && b == idx as int {
                        assert(cur[a] == pre[a]);
                    } else if a == idx as int && b > idx as int {
                        assert(cur[b] == pre[b - 1]);
                        assert(pre[b - 1].timestamp > dv.timestamp);
                    } else if a < idx as int && b > idx as int {
                        assert(cur[a] == pre[a] && cur[b] == pre[b - 1]);
                    } else if b < idx as int {
                        assert(cur[a] == pre[a] && cur[b] == pre[b]);
                    } else {
                        assert(a > idx as int ==> cur[a] == pre[a - 1]);
                        assert(b > idx as int ==> cur[b] == pre[b - 1]);
                    }
                }
                assert(cur.to_multiset() =~= pre.to_multiset().insert(dv));
            }
        }
        self.is_syncing = false;
        proof {
            assert(eview(self.sync_queue@) =~= Seq::<DataSyncEventView>::empty());
            assert(eview(self.sync_queue@).to_multiset() =~= Multiset::<DataSyncEventView>::empty());
            assert(eview(out@).to_multiset() =~= qv.to_multiset());
        }
        Some(out)
    }
}

} // verus!
