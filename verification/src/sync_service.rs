//! The change journal and sync service: the device registry, the append-only
//! log of change records with per-entity monotonic versions, incremental
//! delta computation, and the deterministic conflict resolver.

use vstd::prelude::*;
use crate::platform;
use crate::strutil;

verus! {

broadcast use {
    vstd::seq_lib::group_filter_ensures,
    Seq::lemma_filter_push,
    vstd::seq_lib::group_to_multiset_ensures,
};

/// The kind of client install a device is.
#[derive(Clone, Copy, Debug, PartialEq, Eq, Structural)]
pub enum DeviceType {
    Desktop,
    Mobile,
    Watch,
    Tablet,
}

/// The kind of application data a change touches.
#[derive(Clone, Copy, Debug, PartialEq, Eq, Structural)]
pub enum SyncDataType {
    UserProfile,
    ChatMessage,
    ChatSession,
    Friend,
    Project,
    File,
    Settings,
}

/// The mutation a change record carries.
#[derive(Clone, Copy, Debug, PartialEq, Eq, Structural)]
pub enum SyncOperation {
    Create,
    Update,
    Delete,
    Read,
}

/// The policy the resolver applies when two records for the same entity
/// conflict.
#[derive(Clone, Copy, Debug, PartialEq, Eq, Structural)]
pub enum ConflictResolution {
    /// The record with the greater timestamp wins.
    LastWriteWins,
    /// The record with the smaller timestamp wins.
    FirstWriteWins,
    /// Field-level merge where supported; falls back to last-write-wins.
    MergeChanges,
    /// No automatic winner: the conflict is surfaced for an explicit caller
    /// decision.
    UserChoice,
    /// A record from a device of this type wins regardless of timestamp.
    DevicePriority(DeviceType),
}

/// Identity of one client install.
#[derive(Debug)]
pub struct DeviceInfo {
    pub device_id: String,
    pub user_id: String,
    pub device_type: DeviceType,
    pub device_name: String,
    pub platform: String,
    pub app_version: String,
    /// Milliseconds since the epoch of the last successful delta application.
    pub last_sync: u64,
    pub is_online: bool,
}

/// The mathematical image of a [`DeviceInfo`].
#[verifier::ext_equal]
pub struct DeviceInfoView {
    pub device_id: Seq<char>,
    pub user_id: Seq<char>,
    pub device_type: DeviceType,
    pub device_name: Seq<char>,
    pub platform: Seq<char>,
    pub app_version: Seq<char>,
    pub last_sync: u64,
    pub is_online: bool,
}

impl View for DeviceInfo {
    type V = DeviceInfoView;

    open spec fn view(&self) -> DeviceInfoView {
        DeviceInfoView {
            device_id: self.device_id@,
            user_id: self.user_id@,
            device_type: self.device_type,
            device_name: self.device_name@,
            platform: self.platform@,
            app_version: self.app_version@,
            last_sync: self.last_sync,
            is_online: self.is_online,
        }
    }
}

impl DeviceInfo {
    /// A field-for-field copy carrying the same view.
    pub fn duplicate(&self) -> (r: Self)
        ensures
            r@ == self@,
    {
        DeviceInfo {
            device_id: self.device_id.clone(),
            user_id: self.user_id.clone(),
            device_type: self.device_type,
            device_name: self.device_name.clone(),
            platform: self.platform.clone(),
            app_version: self.app_version.clone(),
            last_sync: self.last_sync,
            is_online: self.is_online,
        }
    }
}

/// One atomic mutation to one entity, by one device.
#[derive(Debug)]
pub struct SyncRecord {
    /// Globally unique record identifier.
    pub id: String,
    pub user_id: String,
    pub device_id: String,
    pub data_type: SyncDataType,
    pub operation: SyncOperation,
    /// The mutated entity's identifier.
    pub data_id: String,
    /// Lower-case hexadecimal SHA-256 fingerprint of the payload.
    pub data_hash: String,
    /// Milliseconds since the epoch.
    pub timestamp: u64,
    /// Strictly increasing per `(user_id, data_id)` pair, starting at 1.
    pub version: u64,
    /// Marker set when the record was produced by conflict resolution.
    pub conflict_resolution: Option<String>,
}

/// The mathematical image of a [`SyncRecord`].
#[verifier::ext_equal]
pub struct SyncRecordView {
    pub id: Seq<char>,
    pub user_id: Seq<char>,
    pub device_id: Seq<char>,
    pub data_type: SyncDataType,
    pub operation: SyncOperation,
    pub data_id: Seq<char>,
    pub data_hash: Seq<char>,
    pub timestamp: u64,
    pub version: u64,
    pub conflict_resolution: Option<Seq<char>>,
}

impl View for SyncRecord {
    type V = SyncRecordView;

    open spec fn view(&self) -> SyncRecordView {
        SyncRecordView {
            id: self.id@,
            user_id: self.user_id@,
            device_id: self.device_id@,
            data_type: self.data_type,
            operation: self.operation,
            data_id: self.data_id@,
            data_hash: self.data_hash@,
            timestamp: self.timestamp,
            version: self.version,
            conflict_resolution: match self.conflict_resolution {
                Some(s) => Some(s@),
                None => None,
            },
        }
    }
}

impl SyncRecord {
    /// A field-for-field copy carrying the same view.
    pub fn duplicate(&self) -> (r: Self)
        ensures
            r@ == self@,
    {
        SyncRecord {
            id: self.id.clone(),
            user_id: self.user_id.clone(),
            device_id: self.device_id.clone(),
            data_type: self.data_type,
            operation: self.operation,
            data_id: self.data_id.clone(),
            data_hash: self.data_hash.clone(),
            timestamp: self.timestamp,
            version: self.version,
            conflict_resolution: match &self.conflict_resolution {
                Some(s) => Some(s.clone()),
                None => None,
            },
        }
    }
}

/// The views of a sequence of devices.
pub open spec fn dview(s: Seq<DeviceInfo>) -> Seq<DeviceInfoView> {
    s.map_values(|d: DeviceInfo| d@)
}

/// The views of a sequence of records.
pub open spec fn jview(s: Seq<SyncRecord>) -> Seq<SyncRecordView> {
    s.map_values(|r: SyncRecord| r@)
}

/// Membership test for one user's devices.
pub open spec fn user_devices_pred(user_id: Seq<char>) -> spec_fn(DeviceInfoView) -> bool {
    |d: DeviceInfoView| d.user_id == user_id
}

/// Membership test for the records of one `(user_id, data_id)` entity.
pub open spec fn key_pred(user_id: Seq<char>, data_id: Seq<char>) -> spec_fn(SyncRecordView) -> bool {
    |r: SyncRecordView| r.user_id == user_id && r.data_id == data_id
}

/// The records of one `(user_id, data_id)` entity, in journal order.
pub open spec fn key_records(
    j: Seq<SyncRecordView>,
    user_id: Seq<char>,
    data_id: Seq<char>,
) -> Seq<SyncRecordView> {
    j.filter(key_pred(user_id, data_id))
}

/// The versions of an entity's records are exactly 1, 2, 3, ... in journal
/// order: no duplicates and no gaps.
pub open spec fn versions_consecutive(s: Seq<SyncRecordView>) -> bool {
    forall|i: int| 0 <= i < s.len() ==> #[trigger] s[i].version == i + 1
}

/// Every entity's version sequence is consecutive from 1.
pub open spec fn journal_wf(j: Seq<SyncRecordView>) -> bool {
    forall|u: Seq<char>, d: Seq<char>| versions_consecutive(#[trigger] key_records(j, u, d))
}

/// No two registered devices share an identifier.
pub open spec fn devices_unique(devs: Seq<DeviceInfoView>) -> bool {
    forall|i: int, j: int|
        0 <= i < j < devs.len() ==> (#[trigger] devs[i].device_id) != (#[trigger] devs[j].device_id)
}

/// Membership test for the records an incremental sync owes a device: those
/// of the same user, authored by other devices, after the watermark.
pub open spec fn delta_pred(
    user_id: Seq<char>,
    device_id: Seq<char>,
    since: u64,
) -> spec_fn(SyncRecordView) -> bool {
    |r: SyncRecordView| r.user_id == user_id && r.device_id != device_id && r.timestamp > since
}

/// The records authored by other devices of the same user after a watermark:
/// what an incremental sync owes a requesting device.
pub open spec fn delta_records(
    j: Seq<SyncRecordView>,
    user_id: Seq<char>,
    device_id: Seq<char>,
    since: u64,
) -> Seq<SyncRecordView> {
    j.filter(delta_pred(user_id, device_id, since))
}

/// Records arranged so that no later record carries an earlier timestamp:
/// the delivery order a consuming device must apply them in.
pub open spec fn sorted_by_timestamp(s: Seq<SyncRecordView>) -> bool {
    forall|a: int, b: int|
        0 <= a < b < s.len() ==> (#[trigger] s[a].timestamp) <= (#[trigger] s[b].timestamp)
}

/// The mathematical image of the sync service.
#[verifier::ext_equal]
pub struct SyncServiceView {
    pub devices: Seq<DeviceInfoView>,
    pub records: Seq<SyncRecordView>,
    pub conflict_resolver: ConflictResolution,
}

/// Device registry, change journal and conflict resolver for one user
/// population.
pub struct MultiDeviceSyncService {
    devices: Vec<DeviceInfo>,
    records: Vec<SyncRecord>,
    conflict_resolver: ConflictResolution,
}

impl View for MultiDeviceSyncService {
    type V = SyncServiceView;

    closed spec fn view(&self) -> SyncServiceView {
        SyncServiceView {
            devices: dview(self.devices@),
            records: jview(self.records@),
            conflict_resolver: self.conflict_resolver,
        }
    }
}

impl MultiDeviceSyncService {
    /// Structural soundness: consecutive versions per entity and unique
    /// device identifiers.
    pub open spec fn wf(&self) -> bool {
        journal_wf(self@.records) && devices_unique(self@.devices)
    }

    /// An empty service resolving conflicts by last-write-wins.
    pub fn new() -> (s: Self)
        ensures
            s.wf(),
            s@.devices.len() == 0,
            s@.records.len() == 0,
            s@.conflict_resolver == ConflictResolution::LastWriteWins,
    {
        let s = MultiDeviceSyncService {
            devices: Vec::new(),
            records: Vec::new(),
            conflict_resolver: ConflictResolution::LastWriteWins,
        };
        proof {
            assert forall|u: Seq<char>, d: Seq<char>|
                versions_consecutive(#[trigger] key_records(jview(s.records@), u, d)) by {
                assert(jview(s.records@) =~= Seq::<SyncRecordView>::empty());
                assert(key_records(jview(s.records@), u, d) =~= Seq::<SyncRecordView>::empty());
            }
        }
        s
    }

    /// Replaces the conflict policy applied by [`Self::resolve_conflict`].
    pub fn set_conflict_policy(&mut self, policy: ConflictResolution)
        ensures
            final(self)@ == (SyncServiceView { conflict_resolver: policy, ..old(self)@ }),
            final(self).wf() == old(self).wf(),
    {
        self.conflict_resolver = policy;
    }

    /// Idempotent upsert of a device by `device_id`: a known device is
    /// replaced in place, a new one is appended.
    pub fn register_device(&mut self, device_info: DeviceInfo)
        requires
            old(self).wf(),
        ensures
            final(self).wf(),
            final(self)@.records == old(self)@.records,
            final(self)@.conflict_resolver == old(self)@.conflict_resolver,
            (exists|i: int|
                0 <= i < old(self)@.devices.len()
                    && (#[trigger] old(self)@.devices[i].device_id) == device_info@.device_id)
                ==> final(self)@.devices == old(self)@.devices.update(
                    choose|i: int|
                        0 <= i < old(self)@.devices.len()
                            && (#[trigger] old(self)@.devices[i].device_id)
                            == device_info@.device_id,
                    device_info@,
                ),
            !(exists|i: int|
                0 <= i < old(self)@.devices.len()
                    && (#[trigger] old(self)@.devices[i].device_id) == device_info@.device_id)
                ==> final(self)@.devices == old(self)@.devices.push(device_info@),
    {
        let ghost old_devs = dview(self.devices@);
        let n = self.devices.len();
        let mut k: usize = 0;
        while k < n
            invariant
                n == self.devices@.len(),
                k <= n,
                devices_unique(dview(self.devices@)),
                dview(self.devices@) == old_devs,
                old_devs == old(self)@.devices,
                journal_wf(jview(self.records@)),
                self.records@ == old(self).records@,
                self.conflict_resolver == old(self).conflict_resolver,
                forall|i: int|
                    0 <= i < k ==> (#[trigger] old_devs[i].device_id) != device_info@.device_id,
            decreases n - k,
        {
            if strutil::str_eq(self.devices[k].device_id.as_str(), device_info.device_id.as_str()) {
                proof {
                    assert(old_devs[k as int].device_id == device_info@.device_id);
                    assert forall|i: int|
                        0 <= i < old_devs.len() && (#[trigger] old_devs[i].device_id)
                            == device_info@.device_id implies i == k as int by {
                        if i != k as int {
                            assert(old_devs[i].device_id != old_devs[k as int].device_id);
                        }
                    }
                }
                self.devices.remove(k);
                self.devices.insert(k, device_info);
                proof {
                    let new_devs = dview(self.devices@);
                    assert(new_devs =~= old_devs.update(k as int, device_info@));
                    let w = choose|i: int|
                        0 <= i < old_devs.len() && (#[trigger] old_devs[i].device_id)
                            == device_info@.device_id;
                    assert(w == k as int);
                    assert forall|i: int, j: int| 0 <= i < j < new_devs.len() implies (
                        #[trigger] new_devs[i].device_id) != (#[trigger] new_devs[j].device_id) by {
                        assert(new_devs[i].device_id == old_devs[i].device_id);
                        assert(new_devs[j].device_id == old_devs[j].device_id);
                    }
                }
                return ;
            }
            k = k + 1;
        }
        self.devices.push(device_info);
        proof {
            assert(dview(self.devices@) =~= old_devs.push(device_info@));
            assert forall|i: int, j: int|
                0 <= i < j < dview(self.devices@).len() implies (#[trigger] dview(
                self.devices@,
            )[i].device_id) != (#[trigger] dview(self.devices@)[j].device_id) by {
                if j == old_devs.len() as int {
                    assert(old_devs[i].device_id != device_info@.device_id);
                }
            }
        }
    }

    /// All devices registered for a user, most recently synced first;
    /// devices sharing a `last_sync` reading come in no promised order.
    pub fn get_user_devices(&self, user_id: &str) -> (r: Vec<DeviceInfo>)
        ensures
            dview(r@).to_multiset() == self@.devices.filter(
                user_devices_pred(user_id@),
            ).to_multiset(),
            forall|a: int, b: int|
                0 <= a < b < r@.len() ==> (#[trigger] dview(r@)[a].last_sync) >= (
                #[trigger] dview(r@)[b].last_sync),
    {
        let ghost p = user_devices_pred(user_id@);
        let mut out: Vec<DeviceInfo> = Vec::new();
        let n = self.devices.len();
        let mut k: usize = 0;
        proof {
            assert(self@.devices.take(0).filter(p) =~= Seq::<DeviceInfoView>::empty());
            assert(dview(out@) =~= Seq::<DeviceInfoView>::empty());
        }
        while k < n
            invariant
                n == self@.devices.len(),
                k <= n,
                p == user_devices_pred(user_id@),
                dview(out@).to_multiset() == self@.devices.take(k as int).filter(p).to_multiset(),
                forall|a: int, b: int|
                    0 <= a < b < out@.len() ==> (#[trigger] dview(out@)[a].last_sync) >= (
                    #[trigger] dview(out@)[b].last_sync),
            decreases n - k,
        {
            let ghost pre = dview(out@);
            let matches = strutil::str_eq(self.devices[k].user_id.as_str(), user_id);
            if matches {
                let dup = self.devices[k].duplicate();
                let ghost dv = dup@;
                let m = out.len();
                let mut idx: usize = 0;
                while idx < m && out[idx].last_sync >= dup.last_sync
                    invariant
                        m == out@.len(),
                        idx <= m,
                        dview(out@) == pre,
                        dv == dup@,
                        forall|j: int|
                            0 <= j < idx ==> (#[trigger] dview(out@)[j].last_sync) >= dv.last_sync,
                    decreases m - idx,
                {
                    proof {
                        assert(dview(out@)[idx as int] == out@[idx as int]@);
                    }
                    idx = idx + 1;
                }
                proof {
                    assert(idx < m ==> out@[idx as int]@.last_sync < dv.last_sync);
                    assert(idx < m ==> dview(out@)[idx as int].last_sync < dv.last_sync);
                }
                out.insert(idx, dup);
                proof {
                    assert(dview(out@) =~= pre.insert(idx as int, dv));
                    let cur = dview(out@);
                    assert forall|a: int, b: int| 0 <= a < b < cur.len() implies (
                    #[trigger] cur[a].last_sync) >= (#[trigger] cur[b].last_sync) by {
                        if a < idx as int && b == idx as int {
                            assert(cur[a] == pre[a]);
                        } else if a == idx as int && b > idx as int {
                            assert(cur[b] == pre[b - 1]);
                            assert(pre[b - 1].last_sync < dv.last_sync);
                        } else if a < idx as int && b > idx as int {
                            assert(cur[a] == pre[a] && cur[b] == pre[b - 1]);
                        } else if b < idx as int {
                            assert(cur[a] == pre[a] && cur[b] == pre[b]);
                        } else {
                            assert(a > idx as int ==> cur[a] == pre[a - 1]);
                            assert(b > idx as int ==> cur[b] == pre[b - 1]);
                        }
                    }
                    assert(cur.to_multiset() =~= pre.to_multiset().insert(dv));
                }
            }
            proof {
                assert(self@.devices.take(k as int + 1) =~= self@.devices.take(k as int).push(
                    self@.devices[k as int],
                ));
                assert(self@.devices[k as int] == self.devices@[k as int]@);
                if matches {
                    assert(p(self@.devices[k as int]));
                } else {
                    assert(!p(self@.devices[k as int]));
                }
            }
            k = k + 1;
        }
        proof {
            assert(self@.devices.take(n as int) =~= self@.devices);
        }
        out
    }

    /// A user's registered devices in registration order; the order the
    /// liveness cross-check walks them in.
    pub(crate) fn user_devices_in_order(&self, user_id: &str) -> (r: Vec<DeviceInfo>)
        ensures
            dview(r@) == self@.devices.filter(|d: DeviceInfoView| d.user_id == user_id@),
    {
        let mut out: Vec<DeviceInfo> = Vec::new();
        let n = self.devices.len();
        let mut k: usize = 0;
        proof {
            assert(dview(out@) =~= self@.devices.take(0).filter(
                |d: DeviceInfoView| d.user_id == user_id@,
            ));
        }
        while k < n
            invariant
                n == self.devices@.len(),
                k <= n,
                dview(out@) == self@.devices.take(k as int).filter(
                    |d: DeviceInfoView| d.user_id == user_id@,
                ),
            decreases n - k,
        {
            let ghost pre = dview(out@);
            if strutil::str_eq(self.devices[k].user_id.as_str(), user_id) {
                let dup = self.devices[k].duplicate();
                out.push(dup);
                proof {
                    assert(dview(out@) =~= pre.push(self@.devices[k as int]));
                }
            }
            proof {
                assert(self@.devices.take(k as int + 1) =~= self@.devices.take(k as int).push(
                    self@.devices[k as int],
                ));
            }
            k = k + 1;
        }
        proof {
            assert(self@.devices.take(n as int) =~= self@.devices);
        }
        out
    }

    /// Advances a device's `last_sync` watermark after a successful delta
    /// application. The watermark only moves forward: an earlier clock
    /// reading never rewinds it. An unregistered device changes nothing.
    pub fn update_last_sync(&mut self, device_id: &str, now: u64)
        requires
            old(self).wf(),
        ensures
            final(self).wf(),
            final(self)@.records == old(self)@.records,
            final(self)@.conflict_resolver == old(self)@.conflict_resolver,
            (exists|i: int|
                0 <= i < old(self)@.devices.len()
                    && (#[trigger] old(self)@.devices[i].device_id) == device_id@) ==> {
                let i = choose|i: int|
                    0 <= i < old(self)@.devices.len() && (#[trigger] old(
                        self,
                    )@.devices[i].device_id) == device_id@;
                final(self)@.devices == old(self)@.devices.update(
                    i,
                    DeviceInfoView {
                        last_sync: if old(self)@.devices[i].last_sync >= now {
                            old(self)@.devices[i].last_sync
                        } else {
                            now
                        },
                        ..old(self)@.devices[i]
                    },
                )
            },
            !(exists|i: int|
                0 <= i < old(self)@.devices.len()
                    && (#[trigger] old(self)@.devices[i].device_id) == device_id@)
                ==> final(self)@.devices == old(self)@.devices,
    {
        let ghost old_devs = dview(self.devices@);
        let n = self.devices.len();
        let mut k: usize = 0;
        while k < n
            invariant
                n == self.devices@.len(),
                k <= n,
                devices_unique(dview(self.devices@)),
                dview(self.devices@) == old_devs,
                old_devs == old(self)@.devices,
                journal_wf(jview(self.records@)),
                self.records@ == old(self).records@,
                self.conflict_resolver == old(self).conflict_resolver,
                forall|i: int|
                    0 <= i < k ==> (#[trigger] old_devs[i].device_id) != device_id@,
            decreases n - k,
        {
            if strutil::str_eq(self.devices[k].device_id.as_str(), device_id) {
                proof {
                    assert(old_devs[k as int].device_id == device_id@);
                    let w = choose|i: int|
                        0 <= i < old_devs.len() && (#[trigger] old_devs[i].device_id)
                            == device_id@;
                    if w != k as int {
                        assert(old_devs[w].device_id != old_devs[k as int].device_id);
                    }
                }
                let mut d = self.devices.remove(k);
                if d.last_sync < now {
                    d.last_sync = now;
                }
                self.devices.insert(k, d);
                proof {
                    let new_devs = dview(self.devices@);
                    assert(new_devs =~= old_devs.update(
                        k as int,
                        DeviceInfoView {
                            last_sync: if old_devs[k as int].last_sync >= now {
                                old_devs[k as int].last_sync
                            } else {
                                now
                            },
                            ..old_devs[k as int]
                        },
                    ));
                    assert forall|i: int, j: int| 0 <= i < j < new_devs.len() implies (
                    #[trigger] new_devs[i].device_id) != (#[trigger] new_devs[j].device_id) by {
                        assert(new_devs[i].device_id == old_devs[i].device_id);
                        assert(new_devs[j].device_id == old_devs[j].device_id);
                    }
                }
                return ;
            }
            k = k + 1;
        }
    }

    /// The version the next change record for `(user_id, data_id)` must
    /// carry: one past the number of records the entity already has.
    pub fn next_version(&self, user_id: &str, data_id: &str) -> (v: u64)
        requires
            self.wf(),
            self@.records.len() < usize::MAX,
        ensures
            v == key_records(self@.records, user_id@, data_id@).len() + 1,
    {
        let ghost pred = |r: SyncRecordView| r.user_id == user_id@ && r.data_id == data_id@;
        let n = self.records.len();
        let mut cnt: usize = 0;
        let mut k: usize = 0;
        proof {
            assert(self@.records.take(0).filter(pred) =~= Seq::<SyncRecordView>::empty());
        }
        while k < n
            invariant
                n == self@.records.len(),
                n < usize::MAX,
                k <= n,
                cnt <= k,
                pred == (|r: SyncRecordView| r.user_id == user_id@ && r.data_id == data_id@),
                cnt == self@.records.take(k as int).filter(pred).len(),
            decreases n - k,
        {
            if strutil::str_eq(self.records[k].user_id.as_str(), user_id)
                && strutil::str_eq(self.records[k].data_id.as_str(), data_id) {
                cnt = cnt + 1;
            }
            proof {
                assert(self@.records.take(k as int + 1) =~= self@.records.take(k as int).push(
                    self@.records[k as int],
                ));
                assert(self@.records[k as int] == self.records@[k as int]@);
            }
            k = k + 1;
        }
        proof {
            assert(self@.records.take(n as int) =~= self@.records);
        }
        (cnt as u64) + 1
    }

    /// Appends the change record with every field supplied by the caller,
    /// assigning the next version for its `(user_id, data_id)` pair. The
    /// journal is append-only: no existing record changes.
    pub fn record_change_at(
        &mut self,
        user_id: &str,
        device_id: &str,
        data_type: SyncDataType,
        operation: SyncOperation,
        data_id: &str,
        data_hash: String,
        id: String,
        timestamp: u64,
    ) -> (r: SyncRecord)
        requires
            old(self).wf(),
            old(self)@.records.len() < usize::MAX,
        ensures
            final(self).wf(),
            final(self)@.devices == old(self)@.devices,
            final(self)@.conflict_resolver == old(self)@.conflict_resolver,
            final(self)@.records == old(self)@.records.push(r@),
            r@ == (SyncRecordView {
                id: id@,
                user_id: user_id@,
                device_id: device_id@,
                data_type,
                operation,
                data_id: data_id@,
                data_hash: data_hash@,
                timestamp,
                version: (key_records(old(self)@.records, user_id@, data_id@).len() + 1) as u64,
                conflict_resolution: None,
            }),
    {
        let version = self.next_version(user_id, data_id);
        let record = SyncRecord {
            id,
            user_id: user_id.to_owned(),
            device_id: device_id.to_owned(),
            data_type,
            operation,
            data_id: data_id.to_owned(),
            data_hash,
            timestamp,
            version,
            conflict_resolution: None,
        };
        let r = record.duplicate();
        self.records.push(record);
        proof {
            let oldj = old(self)@.records;
            let rv = r@;
            let newj = jview(self.records@);
            assert(newj =~= oldj.push(rv));
            assert(rv.version == key_records(oldj, user_id@, data_id@).len() + 1);
            assert forall|u: Seq<char>, d: Seq<char>|
                versions_consecutive(#[trigger] key_records(newj, u, d)) by {
                let p = key_pred(u, d);
                oldj.lemma_filter_push(rv, p);
                assert(key_records(newj, u, d) == oldj.push(rv).filter(p));
                if p(rv) {
                    assert(u == user_id@ && d == data_id@);
                    let ks = key_records(oldj, u, d);
                    assert(versions_consecutive(ks));
                    assert(key_records(newj, u, d) == ks.push(rv));
                    assert forall|i: int| 0 <= i < ks.push(rv).len() implies #[trigger] ks.push(
                        rv,
                    )[i].version == i + 1 by {
                        if i < ks.len() {
                            assert(ks.push(rv)[i] == ks[i]);
                        } else {
                            assert(ks.push(rv)[i] == rv);
                        }
                    }
                } else {
                    assert(key_records(newj, u, d) == key_records(oldj, u, d));
                    assert(versions_consecutive(key_records(oldj, u, d)));
                }
            }
        }
        r
    }

    /// Converts a local mutation into a journal record: fingerprints the
    /// payload, assigns the next per-entity version, stamps the current time
    /// and a fresh identifier, and appends atomically.
    pub fn create_sync_record(
        &mut self,
        user_id: &str,
        device_id: &str,
        data_type: SyncDataType,
        operation: SyncOperation,
        data_id: &str,
        data: &str,
    ) -> (r: SyncRecord)
        requires
            old(self).wf(),
            old(self)@.records.len() < usize::MAX,
        ensures
            final(self).wf(),
            final(self)@.devices == old(self)@.devices,
            final(self)@.conflict_resolver == old(self)@.conflict_resolver,
            final(self)@.records == old(self)@.records.push(r@),
            r@.id.len() == 36,
            r@.user_id == user_id@,
            r@.device_id == device_id@,
            r@.data_type == data_type,
            r@.operation == operation,
            r@.data_id == data_id@,
            r@.data_hash == strutil::hex_of(platform::sha256_of(data@)),
            r@.version == key_records(old(self)@.records, user_id@, data_id@).len() + 1,
            r@.conflict_resolution is None,
    {
        let id = platform::new_uuid();
        let timestamp = platform::now_ms();
        let digest = platform::sha256(data);
        let data_hash = strutil::hex_string(&digest);
        self.record_change_at(
            user_id,
            device_id,
            data_type,
            operation,
            data_id,
            data_hash,
            id,
            timestamp,
        )
    }
}

impl MultiDeviceSyncService {
    /// The incremental delta for a device: exactly the journal records of the
    /// same user authored by other devices after the watermark, in
    /// non-decreasing timestamp order. A consuming device must apply them in
    /// the order returned.
    pub fn get_incremental_sync(
        &self,
        user_id: &str,
        device_id: &str,
        last_sync_time: u64,
    ) -> (r: Vec<SyncRecord>)
        ensures
            jview(r@).to_multiset() == delta_records(
                self@.records,
                user_id@,
                device_id@,
                last_sync_time,
            ).to_multiset(),
            sorted_by_timestamp(jview(r@)),
    {
        let ghost p = delta_pred(user_id@, device_id@, last_sync_time);
        let mut out: Vec<SyncRecord> = Vec::new();
        let n = self.records.len();
        let mut k: usize = 0;
        proof {
            assert(self@.records.take(0).filter(p) =~= Seq::<SyncRecordView>::empty());
            assert(jview(out@) =~= Seq::<SyncRecordView>::empty());
        }
        while k < n
            invariant
                n == self@.records.len(),
                k <= n,
                p == delta_pred(user_id@, device_id@, last_sync_time),
                jview(out@).to_multiset() == self@.records.take(k as int).filter(p).to_multiset(),
                sorted_by_timestamp(jview(out@)),
            decreases n - k,
        {
            let ghost pre = jview(out@);
            let matches = strutil::str_eq(self.records[k].user_id.as_str(), user_id)
                && !strutil::str_eq(self.records[k].device_id.as_str(), device_id)
                && self.records[k].timestamp > last_sync_time;
            if matches {
                let dup = self.records[k].duplicate();
                let ghost dv = dup@;
                let m = out.len();
                let mut idx: usize = 0;
                while idx < m && out[idx].timestamp <= dup.timestamp
                    invariant
                        m == out@.len(),
                        idx <= m,
                        jview(out@) == pre,
                        dv == dup@,
                        forall|j: int|
                            0 <= j < idx ==> (#[trigger] jview(out@)[j].timestamp) <= dv.timestamp,
                    decreases m - idx,
                {
                    proof {
                        assert(jview(out@)[idx as int] == out@[idx as int]@);
                    }
                    idx = idx + 1;
                }
                proof {
                    assert(idx < m ==> out@[idx as int]@.timestamp > dv.timestamp);
                    assert(idx < m ==> jview(out@)[idx as int].timestamp > dv.timestamp);
                }
                out.insert(idx, dup);
                proof {
                    assert(jview(out@) =~= pre.insert(idx as int, dv));
                    let cur = jview(out@);
                    assert forall|a: int, b: int| 0 <= a < b < cur.len() implies (
                        #[trigger] cur[a].timestamp) <= (#[trigger] cur[b].timestamp) by {
                        if a < idx as int && b == idx as int {
                            assert(cur[a] == pre[a]);
                        } else if a == idx as int && b > idx as int {
                            assert(cur[b] == pre[b - 1]);
                            assert(pre[b - 1].timestamp > dv.timestamp);
                        } else if a < idx as int && b > idx as int {
                            assert(cur[a] == pre[a] && cur[b] == pre[b - 1]);
                        } else if a < idx as int && b < idx as int {
                            assert(cur[a] == pre[a] && cur[b] == pre[b]);
                        } else {
                            assert(a > idx as int ==> cur[a] == pre[a - 1]);
                            assert(b > idx as int ==> cur[b] == pre[b - 1]);
                        }
                    }
                    assert(cur.to_multiset() =~= pre.to_multiset().insert(dv));
                }
            }
            proof {
                assert(self@.records.take(k as int + 1) =~= self@.records.take(k as int).push(
                    self@.records[k as int],
                ));
                assert(self@.records[k as int] == self.records@[k as int]@);
                if matches {
                    assert(p(self@.records[k as int]));
                } else {
                    assert(!p(self@.records[k as int]));
                }
            }
            k = k + 1;
        }
        proof {
            assert(self@.records.take(n as int) =~= self@.records);
        }
        out
    }
}

/// The type a device identifier is registered under, if it is registered.
pub open spec fn device_type_of(devs: Seq<DeviceInfoView>, id: Seq<char>) -> Option<DeviceType> {
    if exists|i: int| 0 <= i < devs.len() && (#[trigger] devs[i].device_id) == id {
        Some(
            devs[choose|i: int|
                0 <= i < devs.len() && (#[trigger] devs[i].device_id) == id].device_type,
        )
    } else {
        None
    }
}

/// Of two records with equal timestamps, the one later in the lexicographic
/// order of `(device_id, id)`; equal keys yield the first argument.
pub open spec fn tie_break_latest(a: SyncRecordView, b: SyncRecordView) -> SyncRecordView {
    if strutil::str_lt_spec(a.device_id, b.device_id) {
        b
    } else if strutil::str_lt_spec(b.device_id, a.device_id) {
        a
    } else if strutil::str_lt_spec(a.id, b.id) {
        b
    } else if strutil::str_lt_spec(b.id, a.id) {
        a
    } else {
        a
    }
}

/// Of two records with equal timestamps, the one earlier in the lexicographic
/// order of `(device_id, id)`; equal keys yield the first argument.
pub open spec fn tie_break_earliest(a: SyncRecordView, b: SyncRecordView) -> SyncRecordView {
    if strutil::str_lt_spec(a.device_id, b.device_id) {
        a
    } else if strutil::str_lt_spec(b.device_id, a.device_id) {
        b
    } else if strutil::str_lt_spec(a.id, b.id) {
        a
    } else if strutil::str_lt_spec(b.id, a.id) {
        b
    } else {
        a
    }
}

/// Last-write-wins: the record with the greater timestamp; timestamp ties are
/// broken deterministically by `(device_id, id)`.
pub open spec fn lww_winner(a: SyncRecordView, b: SyncRecordView) -> SyncRecordView {
    if a.timestamp > b.timestamp {
        a
    } else if b.timestamp > a.timestamp {
        b
    } else {
        tie_break_latest(a, b)
    }
}

/// First-write-wins: the record with the smaller timestamp; timestamp ties
/// are broken deterministically by `(device_id, id)`.
pub open spec fn fww_winner(a: SyncRecordView, b: SyncRecordView) -> SyncRecordView {
    if a.timestamp < b.timestamp {
        a
    } else if b.timestamp < a.timestamp {
        b
    } else {
        tie_break_earliest(a, b)
    }
}

/// The resolver's complete decision: a winner, or `None` when the policy
/// requires an explicit caller decision. Merging is an extension point no
/// data type implements, so it falls back to last-write-wins. Under device
/// priority, a record from a device registered with the designated type beats
/// any other; when neither or both qualify, timestamps decide.
pub open spec fn resolve_spec(
    policy: ConflictResolution,
    devs: Seq<DeviceInfoView>,
    local: SyncRecordView,
    remote: SyncRecordView,
) -> Option<SyncRecordView> {
    match policy {
        ConflictResolution::LastWriteWins => Some(lww_winner(local, remote)),
        ConflictResolution::FirstWriteWins => Some(fww_winner(local, remote)),
        ConflictResolution::MergeChanges => Some(lww_winner(local, remote)),
        ConflictResolution::UserChoice => None,
        ConflictResolution::DevicePriority(t) => {
            let lt = device_type_of(devs, local.device_id);
            let rt = device_type_of(devs, remote.device_id);
            if lt == Some(t) && rt != Some(t) {
                Some(local)
            } else if rt == Some(t) && lt != Some(t) {
                Some(remote)
            } else {
                Some(lww_winner(local, remote))
            }
        },
    }
}

impl MultiDeviceSyncService {
    /// The registered type of a device, if any.
    fn find_device_type(&self, device_id: &str) -> (r: Option<DeviceType>)
        requires
            self.wf(),
        ensures
            r == device_type_of(self@.devices, device_id@),
    {
        let n = self.devices.len();
        let mut k: usize = 0;
        while k < n
            invariant
                self.wf(),
                n == self@.devices.len(),
                k <= n,
                forall|i: int|
                    0 <= i < k ==> (#[trigger] self@.devices[i].device_id) != device_id@,
            decreases n - k,
        {
            if strutil::str_eq(self.devices[k].device_id.as_str(), device_id) {
                proof {
                    assert(self@.devices[k as int].device_id == device_id@);
                    let w = choose|i: int|
                        0 <= i < self@.devices.len() && (#[trigger] self@.devices[i].device_id)
                            == device_id@;
                    if w != k as int {
                        assert(self@.devices[w].device_id != self@.devices[k as int].device_id);
                    }
                }
                return Some(self.devices[k].device_type);
            }
            k = k + 1;
        }
        None
    }

    /// Picks a winner between two change records for the same entity under
    /// the configured policy, or `None` when the policy demands an explicit
    /// caller decision. Deterministic and side-effect-free: the result is a
    /// function of the two records and the registry alone.
    pub fn resolve_conflict(&self, local_record: &SyncRecord, remote_record: &SyncRecord) -> (r:
        Option<SyncRecord>)
        requires
            self.wf(),
        ensures
            match r {
                Some(w) => resolve_spec(
                    self@.conflict_resolver,
                    self@.devices,
                    local_record@,
                    remote_record@,
                ) == Some(w@),
                None => resolve_spec(
                    self@.conflict_resolver,
                    self@.devices,
                    local_record@,
                    remote_record@,
                ) is None,
            },
    {
        match self.conflict_resolver {
            ConflictResolution::LastWriteWins => Some(pick_latest(local_record, remote_record)),
            ConflictResolution::FirstWriteWins => Some(pick_earliest(local_record, remote_record)),
            ConflictResolution::MergeChanges => Some(pick_latest(local_record, remote_record)),
            ConflictResolution::UserChoice => None,
            ConflictResolution::DevicePriority(t) => {
                let lt = self.find_device_type(local_record.device_id.as_str());
                let rt = self.find_device_type(remote_record.device_id.as_str());
                let l_match = match lt {
                    Some(x) => x == t,
                    None => false,
                };
                let r_match = match rt {
                    Some(x) => x == t,
                    None => false,
                };
                if l_match && !r_match {
                    Some(local_record.duplicate())
                } else if r_match && !l_match {
                    Some(remote_record.duplicate())
                } else {
                    Some(pick_latest(local_record, remote_record))
                }
            },
        }
    }
}

/// The record `lww_winner` names, copied.
fn pick_latest(a: &SyncRecord, b: &SyncRecord) -> (r: SyncRecord)
    ensures
        r@ == lww_winner(a@, b@),
{
    if a.timestamp > b.timestamp {
        a.duplicate()
    } else if b.timestamp > a.timestamp {
        b.duplicate()
    } else if strutil::str_lt(a.device_id.as_str(), b.device_id.as_str()) {
        b.duplicate()
    } else if strutil::str_lt(b.device_id.as_str(), a.device_id.as_str()) {
        a.duplicate()
    } else if strutil::str_lt(a.id.as_str(), b.id.as_str()) {
        b.duplicate()
    } else if strutil::str_lt(b.id.as_str(), a.id.as_str()) {
        a.duplicate()
    } else {
        a.duplicate()
    }
}

/// The record `fww_winner` names, copied.
fn pick_earliest(a: &SyncRecord, b: &SyncRecord) -> (r: SyncRecord)
    ensures
        r@ == fww_winner(a@, b@),
{
    if a.timestamp < b.timestamp {
        a.duplicate()
    } else if b.timestamp < a.timestamp {
        b.duplicate()
    } else if strutil::str_lt(a.device_id.as_str(), b.device_id.as_str()) {
        a.duplicate()
    } else if strutil::str_lt(b.device_id.as_str(), a.device_id.as_str()) {
        b.duplicate()
    } else if strutil::str_lt(a.id.as_str(), b.id.as_str()) {
        a.duplicate()
    } else if strutil::str_lt(b.id.as_str(), a.id.as_str()) {
        b.duplicate()
    } else {
        a.duplicate()
    }
}

/// Under last-write-wins, the winner is always the record with the greater
/// timestamp.
pub proof fn lemma_lww_picks_greater_timestamp(a: SyncRecordView, b: SyncRecordView)
    ensures
        a.timestamp > b.timestamp ==> lww_winner(a, b) == a,
        b.timestamp > a.timestamp ==> lww_winner(a, b) == b,
{
}

/// Conflict resolution does not depend on argument order: swapping the two
/// records yields the same winner. Record identifiers are globally unique, so
/// two records sharing one are the same record; that is the only assumption.
pub proof fn lemma_resolve_symmetric(
    policy: ConflictResolution,
    devs: Seq<DeviceInfoView>,
    a: SyncRecordView,
    b: SyncRecordView,
)
    requires
        a.id == b.id ==> a == b,
    ensures
        resolve_spec(policy, devs, a, b) == resolve_spec(policy, devs, b, a),
{
    lemma_tie_breaks_symmetric(a, b);
}

/// Both tie-breakers are symmetric in their arguments, given unique record
/// identifiers.
proof fn lemma_tie_breaks_symmetric(a: SyncRecordView, b: SyncRecordView)
    requires
        a.id == b.id ==> a == b,
    ensures
        tie_break_latest(a, b) == tie_break_latest(b, a),
        tie_break_earliest(a, b) == tie_break_earliest(b, a),
        lww_winner(a, b) == lww_winner(b, a),
        fww_winner(a, b) == fww_winner(b, a),
{
    if strutil::str_lt_spec(a.device_id, b.device_id) {
        strutil::lemma_str_lt_asymmetric(a.device_id, b.device_id);
    } else if strutil::str_lt_spec(b.device_id, a.device_id) {
        strutil::lemma_str_lt_asymmetric(b.device_id, a.device_id);
    } else {
        strutil::lemma_str_lt_total(a.device_id, b.device_id);
        if strutil::str_lt_spec(a.id, b.id) {
            strutil::lemma_str_lt_asymmetric(a.id, b.id);
        } else if strutil::str_lt_spec(b.id, a.id) {
            strutil::lemma_str_lt_asymmetric(b.id, a.id);
        } else {
            strutil::lemma_str_lt_total(a.id, b.id);
        }
    }
}

/// One chat message as the sync layer ships it.
#[derive(Debug)]
pub struct ChatMessage {
    pub id: String,
    pub session_id: String,
    pub sender_id: String,
    pub content: String,
    pub message_type: String,
    /// Milliseconds since the epoch.
    pub timestamp: u64,
    pub is_read: bool,
}

/// One friendship row as the sync layer ships it.
#[derive(Debug)]
pub struct Friend {
    pub id: String,
    pub user_id: String,
    pub friend_user_id: String,
    pub status: String,
    /// Milliseconds since the epoch.
    pub created_at: u64,
    /// Milliseconds since the epoch.
    pub updated_at: u64,
}

impl MultiDeviceSyncService {
    /// The incremental delta for a device, as [`Self::get_incremental_sync`]
    /// computes it.
    pub fn sync_incremental(&self, user_id: &str, device_id: &str, last_sync: u64) -> (r: Vec<
        SyncRecord,
    >)
        ensures
            jview(r@).to_multiset() == delta_records(
                self@.records,
                user_id@,
                device_id@,
                last_sync,
            ).to_multiset(),
            sorted_by_timestamp(jview(r@)),
    {
        self.get_incremental_sync(user_id, device_id, last_sync)
    }

    /// Journals one change record per chat message, given each message's
    /// identifier and serialized payload: a `Create` of a `ChatMessage`
    /// entity, fingerprinted from the payload, versioned per entity.
    pub fn sync_chat_messages(&mut self, user_id: &str, device_id: &str, messages: Vec<(String, String)>)
        requires
            old(self).wf(),
            old(self)@.records.len() + messages@.len() <= usize::MAX,
        ensures
            final(self).wf(),
            final(self)@.devices == old(self)@.devices,
            final(self)@.conflict_resolver == old(self)@.conflict_resolver,
            final(self)@.records.len() == old(self)@.records.len() + messages@.len(),
            final(self)@.records.take(old(self)@.records.len() as int) == old(self)@.records,
            forall|i: int|
                0 <= i < messages@.len() ==> {
                    let r = #[trigger] final(self)@.records[old(self)@.records.len() + i];
                    &&& r.user_id == user_id@
                    &&& r.device_id == device_id@
                    &&& r.data_type == SyncDataType::ChatMessage
                    &&& r.operation == SyncOperation::Create
                    &&& r.data_id == messages@[i].0@
                    &&& r.data_hash == strutil::hex_of(platform::sha256_of(messages@[i].1@))
                    &&& r.conflict_resolution is None
                },
    {
        self.record_batch(user_id, device_id, SyncDataType::ChatMessage, messages);
    }

    /// Journals one change record per friendship row, given each row's
    /// identifier and serialized payload: a `Create` of a `Friend` entity,
    /// fingerprinted from the payload, versioned per entity.
    pub fn sync_friend_data(&mut self, user_id: &str, device_id: &str, friends: Vec<(String, String)>)
        requires
            old(self).wf(),
            old(self)@.records.len() + friends@.len() <= usize::MAX,
        ensures
            final(self).wf(),
            final(self)@.devices == old(self)@.devices,
            final(self)@.conflict_resolver == old(self)@.conflict_resolver,
            final(self)@.records.len() == old(self)@.records.len() + friends@.len(),
            final(self)@.records.take(old(self)@.records.len() as int) == old(self)@.records,
            forall|i: int|
                0 <= i < friends@.len() ==> {
                    let r = #[trigger] final(self)@.records[old(self)@.records.len() + i];
                    &&& r.user_id == user_id@
                    &&& r.device_id == device_id@
                    &&& r.data_type == SyncDataType::Friend
                    &&& r.operation == SyncOperation::Create
                    &&& r.data_id == friends@[i].0@
                    &&& r.data_hash == strutil::hex_of(platform::sha256_of(friends@[i].1@))
                    &&& r.conflict_resolution is None
                },
    {
        self.record_batch(user_id, device_id, SyncDataType::Friend, friends);
    }

    /// Journals one `Create` record per `(data_id, payload)` pair.
    fn record_batch(
        &mut self,
        user_id: &str,
        device_id: &str,
        data_type: SyncDataType,
        items: Vec<(String, String)>,
    )
        requires
            old(self).wf(),
            old(self)@.records.len() + items@.len() <= usize::MAX,
        ensures
            final(self).wf(),
            final(self)@.devices == old(self)@.devices,
            final(self)@.conflict_resolver == old(self)@.conflict_resolver,
            final(self)@.records.len() == old(self)@.records.len() + items@.len(),
            final(self)@.records.take(old(self)@.records.len() as int) == old(self)@.records,
            forall|i: int|
                0 <= i < items@.len() ==> {
                    let r = #[trigger] final(self)@.records[old(self)@.records.len() + i];
                    &&& r.user_id == user_id@
                    &&& r.device_id == device_id@
                    &&& r.data_type == data_type
                    &&& r.operation == SyncOperation::Create
                    &&& r.data_id == items@[i].0@
                    &&& r.data_hash == strutil::hex_of(platform::sha256_of(items@[i].1@))
                    &&& r.conflict_resolution is None
                },
    {
        let ghost base = self@.records.len() as int;
        let n = items.len();
        let mut k: usize = 0;
        proof {
            assert(self@.records.take(base) =~= old(self)@.records);
        }
        while k < n
            invariant
                self.wf(),
                n == items@.len(),
                k <= n,
                base == old(self)@.records.len(),
                base + n <= usize::MAX,
                self@.devices == old(self)@.devices,
                self@.conflict_resolver == old(self)@.conflict_resolver,
                self@.records.len() == base + k,
                self@.records.take(base) == old(self)@.records,
                forall|i: int|
                    0 <= i < k ==> {
                        let r = #[trigger] self@.records[base + i];
                        &&& r.user_id == user_id@
                        &&& r.device_id == device_id@
                        &&& r.data_type == data_type
                        &&& r.operation == SyncOperation::Create
                        &&& r.data_id == items@[i].0@
                        &&& r.data_hash == strutil::hex_of(platform::sha256_of(items@[i].1@))
                        &&& r.conflict_resolution is None
                    },
            decreases n - k,
        {
            let ghost pre = self@.records;
            let _ = self.create_sync_record(
                user_id,
                device_id,
                data_type,
                SyncOperation::Create,
                items[k].0.as_str(),
                items[k].1.as_str(),
            );
            proof {
                assert(self@.records.take(base) =~= pre.take(base));
                assert(items@[k as int].0@ == items[k as int].0@);
            }
            k = k + 1;
        }
    }
}

/// Some record in `s` carries version `v`.
pub open spec fn has_version(s: Seq<SyncRecordView>, v: int) -> bool {
    exists|a: int| 0 <= a < s.len() && (#[trigger] s[a].version) == v
}

/// Version monotonicity: for any entity, the journal's version sequence is
/// strictly increasing in journal order, and every version from 1 up to the
/// entity's record count occurs — no duplicates and no gaps.
pub proof fn lemma_version_monotonic(j: Seq<SyncRecordView>, u: Seq<char>, d: Seq<char>)
    requires
        journal_wf(j),
    ensures
        forall|a: int, b: int|
            0 <= a < b < key_records(j, u, d).len() ==> (#[trigger] key_records(j, u, d)[a].version)
                < (#[trigger] key_records(j, u, d)[b].version),
        forall|v: int| 1 <= v <= key_records(j, u, d).len() ==> #[trigger] has_version(
            key_records(j, u, d),
            v,
        ),
{
    let ks = key_records(j, u, d);
    assert(versions_consecutive(ks));
    assert forall|v: int| 1 <= v <= ks.len() implies #[trigger] has_version(ks, v) by {
        assert(ks[v - 1].version == v);
    }
}

} // verus!
