//! The realtime sync manager: the live-connection registry with heartbeat
//! liveness, and the total routing filter that is the sole authorization gate
//! for fanning messages out to a user's other devices.

use vstd::prelude::*;
use crate::platform;
use crate::strutil;
use crate::sync_service::{
    delta_records, dview, jview, sorted_by_timestamp, DeviceInfo, DeviceInfoView,
    MultiDeviceSyncService, SyncRecord, SyncRecordView,
};

verus! {

broadcast use {
    vstd::seq_lib::group_filter_ensures,
    Seq::lemma_filter_push,
};

/// A device is considered online only if a heartbeat was seen within this
/// window: five minutes, in milliseconds.
pub const HEARTBEAT_WINDOW_MS: u64 = 5 * 60 * 1000;

/// One message on the realtime channel between devices.
#[derive(Debug)]
pub enum RealtimeSyncMessage {
    /// A device announces itself on connect.
    DeviceOnline { device_id: String, user_id: String },
    /// A device's connection closed.
    DeviceOffline { device_id: String, user_id: String },
    /// A change record to apply, fanned out to the author's other devices.
    DataUpdate { sync_record: SyncRecord },
    /// A chat message, fanned out to the sending user's other devices.
    ChatMessage {
        message_id: String,
        session_id: String,
        sender_id: String,
        content: String,
        timestamp: u64,
    },
    /// A friend's presence changed.
    FriendStatusUpdate { friend_id: String, status: String, last_seen: u64 },
    /// A device asks for the records it has missed since its watermark.
    SyncRequest { device_id: String, last_sync: u64 },
    /// The records a sync request asked for, answered on the same connection.
    SyncResponse { records: Vec<SyncRecord>, next_sync_token: String },
    /// Liveness signal; refreshes the device's heartbeat.
    Heartbeat { device_id: String, timestamp: u64 },
}

/// The mathematical image of a [`RealtimeSyncMessage`].
#[verifier::ext_equal]
pub enum RealtimeSyncMessageView {
    DeviceOnline { device_id: Seq<char>, user_id: Seq<char> },
    DeviceOffline { device_id: Seq<char>, user_id: Seq<char> },
    DataUpdate { sync_record: SyncRecordView },
    ChatMessage {
        message_id: Seq<char>,
        session_id: Seq<char>,
        sender_id: Seq<char>,
        content: Seq<char>,
        timestamp: u64,
    },
    FriendStatusUpdate { friend_id: Seq<char>, status: Seq<char>, last_seen: u64 },
    SyncRequest { device_id: Seq<char>, last_sync: u64 },
    SyncResponse { records: Seq<SyncRecordView>, next_sync_token: Seq<char> },
    Heartbeat { device_id: Seq<char>, timestamp: u64 },
}

impl View for RealtimeSyncMessage {
    type V = RealtimeSyncMessageView;

    open spec fn view(&self) -> RealtimeSyncMessageView {
        match self {
            RealtimeSyncMessage::DeviceOnline { device_id, user_id } => {
                RealtimeSyncMessageView::DeviceOnline {
                    device_id: device_id@,
                    user_id: user_id@,
                }
            },
            RealtimeSyncMessage::DeviceOffline { device_id, user_id } => {
                RealtimeSyncMessageView::DeviceOffline {
                    device_id: device_id@,
                    user_id: user_id@,
                }
            },
            RealtimeSyncMessage::DataUpdate { sync_record } => {
                RealtimeSyncMessageView::DataUpdate { sync_record: sync_record@ }
            },
            RealtimeSyncMessage::ChatMessage {
                message_id,
                session_id,
                sender_id,
                content,
                timestamp,
            } => {
                RealtimeSyncMessageView::ChatMessage {
                    message_id: message_id@,
                    session_id: session_id@,
                    sender_id: sender_id@,
                    content: content@,
                    timestamp: *timestamp,
                }
            },
            RealtimeSyncMessage::FriendStatusUpdate { friend_id, status, last_seen } => {
                RealtimeSyncMessageView::FriendStatusUpdate {
                    friend_id: friend_id@,
                    status: status@,
                    last_seen: *last_seen,
                }
            },
            RealtimeSyncMessage::SyncRequest { device_id, last_sync } => {
                RealtimeSyncMessageView::SyncRequest {
                    device_id: device_id@,
                    last_sync: *last_sync,
                }
            },
            RealtimeSyncMessage::SyncResponse { records, next_sync_token } => {
                RealtimeSyncMessageView::SyncResponse {
                    records: jview(records@),
                    next_sync_token: next_sync_token@,
                }
            },
            RealtimeSyncMessage::Heartbeat { device_id, timestamp } => {
                RealtimeSyncMessageView::Heartbeat {
                    device_id: device_id@,
                    timestamp: *timestamp,
                }
            },
        }
    }
}

/// One live connection, keyed by device.
#[derive(Debug)]
pub struct DeviceConnection {
    pub device_id: String,
    pub user_id: String,
    /// Milliseconds since the epoch.
    pub connected_at: u64,
    /// Milliseconds since the epoch of the last heartbeat seen.
    pub last_heartbeat: u64,
}

/// The mathematical image of a [`DeviceConnection`].
#[verifier::ext_equal]
pub struct DeviceConnectionView {
    pub device_id: Seq<char>,
    pub user_id: Seq<char>,
    pub connected_at: u64,
    pub last_heartbeat: u64,
}

impl View for DeviceConnection {
    type V = DeviceConnectionView;

    open spec fn view(&self) -> DeviceConnectionView {
        DeviceConnectionView {
            device_id: self.device_id@,
            user_id: self.user_id@,
            connected_at: self.connected_at,
            last_heartbeat: self.last_heartbeat,
        }
    }
}

/// The views of a sequence of connections.
pub open spec fn cnview(s: Seq<DeviceConnection>) -> Seq<DeviceConnectionView> {
    s.map_values(|c: DeviceConnection| c@)
}

/// No two live connections share a device identifier.
pub open spec fn connections_unique(conns: Seq<DeviceConnectionView>) -> bool {
    forall|i: int, j: int|
        0 <= i < j < conns.len() ==> (#[trigger] conns[i].device_id) != (
        #[trigger] conns[j].device_id)
}

/// The position of the connection registered for a device, if one is.
pub open spec fn conn_find(conns: Seq<DeviceConnectionView>, device_id: Seq<char>) -> Option<int> {
    if exists|i: int| 0 <= i < conns.len() && (#[trigger] conns[i].device_id) == device_id {
        Some(choose|i: int| 0 <= i < conns.len() && (#[trigger] conns[i].device_id) == device_id)
    } else {
        None
    }
}

/// Whether a heartbeat seen at `hb` still counts as live at `now`.
pub open spec fn heartbeat_live(hb: u64, now: u64) -> bool {
    hb > now || now - hb < HEARTBEAT_WINDOW_MS
}

/// Whether a device has a live connection at `now`: a connection exists and
/// its heartbeat is within the window. Presence of a connection alone is not
/// enough — a half-closed socket may never raise an error.
pub open spec fn conn_live(
    conns: Seq<DeviceConnectionView>,
    device_id: Seq<char>,
    now: u64,
) -> bool {
    exists|i: int|
        0 <= i < conns.len() && (#[trigger] conns[i].device_id) == device_id && heartbeat_live(
            conns[i].last_heartbeat,
            now,
        )
}

/// Membership test for the connections a fan-out from `exclude_device_id`
/// under `user_id` must reach: the same user's connections, never the
/// sender's own.
pub open spec fn fanout_pred(
    user_id: Seq<char>,
    exclude_device_id: Seq<char>,
) -> spec_fn(DeviceConnectionView) -> bool {
    |c: DeviceConnectionView| c.user_id == user_id && c.device_id != exclude_device_id
}

/// The device identifiers a fan-out must deliver to, in registration order.
pub open spec fn fanout_targets(
    conns: Seq<DeviceConnectionView>,
    user_id: Seq<char>,
    exclude_device_id: Seq<char>,
) -> Seq<Seq<char>> {
    conns.filter(fanout_pred(user_id, exclude_device_id)).map_values(
        |c: DeviceConnectionView| c.device_id,
    )
}

/// The sole authorization gate for fan-out: whether a connection identified
/// as `conn_device` / `conn_user` may be sent this message. Every message
/// kind has an explicit decision; nothing is forwarded by default, and
/// nothing reaches an unidentified connection. A chat message carries its
/// sending user but no device, so the filter confines it to that user's
/// connections, and [`fanout_targets`] excludes the originating device
/// from the delivery list. A friend status update must reach other users,
/// since a friend is another user; for that kind the filter requires only
/// an identified connection.
pub open spec fn should_forward_spec(
    msg: RealtimeSyncMessageView,
    conn_device: Option<Seq<char>>,
    conn_user: Option<Seq<char>>,
) -> bool {
    match msg {
        RealtimeSyncMessageView::ChatMessage { sender_id, .. } => conn_user == Some(sender_id),
        RealtimeSyncMessageView::FriendStatusUpdate { .. } => conn_user is Some,
        RealtimeSyncMessageView::DataUpdate { sync_record } => conn_user == Some(
            sync_record.user_id,
        ) && conn_device != Some(sync_record.device_id),
        RealtimeSyncMessageView::DeviceOnline { user_id, .. } => conn_user == Some(user_id),
        RealtimeSyncMessageView::DeviceOffline { user_id, .. } => conn_user == Some(user_id),
        RealtimeSyncMessageView::SyncRequest { .. } => false,
        RealtimeSyncMessageView::SyncResponse { .. } => false,
        RealtimeSyncMessageView::Heartbeat { .. } => false,
    }
}

/// Live connections per online device; fan-out routing and liveness tracking.
pub struct RealtimeSyncManager {
    connections: Vec<DeviceConnection>,
}

/// The mathematical image of the realtime manager: its connection table.
#[verifier::ext_equal]
pub struct RealtimeSyncManagerView {
    pub connections: Seq<DeviceConnectionView>,
}

impl View for RealtimeSyncManager {
    type V = RealtimeSyncManagerView;

    closed spec fn view(&self) -> RealtimeSyncManagerView {
        RealtimeSyncManagerView { connections: cnview(self.connections@) }
    }
}

impl RealtimeSyncManager {
    /// Structural soundness: one connection per device.
    pub open spec fn wf(&self) -> bool {
        connections_unique(self@.connections)
    }

    /// An empty connection table.
    pub fn new() -> (s: Self)
        ensures
            s.wf(),
            s@.connections.len() == 0,
    {
        let s = RealtimeSyncManager { connections: Vec::new() };
        proof {
            assert(cnview(s.connections@) =~= Seq::<DeviceConnectionView>::empty());
        }
        s
    }

    /// Registers the connection a `DeviceOnline` announcement opened, keyed
    /// by device: a device reconnecting replaces its old entry. Both
    /// `connected_at` and the heartbeat start at `now`.
    pub fn register_connection(&mut self, device_id: &str, user_id: &str, now: u64)
        requires
            old(self).wf(),
        ensures
            final(self).wf(),
            ({
                let c = DeviceConnectionView {
                    device_id: device_id@,
                    user_id: user_id@,
                    connected_at: now,
                    last_heartbeat: now,
                };
                match conn_find(old(self)@.connections, device_id@) {
                    Some(i) => final(self)@.connections == old(self)@.connections.update(i, c),
                    None => final(self)@.connections == old(self)@.connections.push(c),
                }
            }),
    {
        let conn = DeviceConnection {
            device_id: device_id.to_owned(),
            user_id: user_id.to_owned(),
            connected_at: now,
            last_heartbeat: now,
        };
        let ghost oldc = self@.connections;
        let n = self.connections.len();
        let mut k: usize = 0;
        while k < n
            invariant
                self.wf(),
                self == old(self),
                oldc == self@.connections,
                conn@ == (DeviceConnectionView {
                    device_id: device_id@,
                    user_id: user_id@,
                    connected_at: now,
                    last_heartbeat: now,
                }),
                n == self@.connections.len(),
                k <= n,
                forall|i: int| 0 <= i < k ==> (#[trigger] self@.connections[i].device_id) != device_id@,
            decreases n - k,
        {
            if strutil::str_eq(self.connections[k].device_id.as_str(), device_id) {
                proof {
                    assert(oldc[k as int].device_id == device_id@);
                    let w = choose|i: int|
                        0 <= i < oldc.len() && (#[trigger] oldc[i].device_id) == device_id@;
                    if w != k as int {
                        assert(oldc[w].device_id != oldc[k as int].device_id);
                    }
                }
                self.connections.remove(k);
                self.connections.insert(k, conn);
                proof {
                    let cur = cnview(self.connections@);
                    assert(cur =~= oldc.update(k as int, conn@));
                    assert forall|i: int, j: int| 0 <= i < j < cur.len() implies (
                    #[trigger] cur[i].device_id) != (#[trigger] cur[j].device_id) by {
                        assert(cur[i].device_id == oldc[i].device_id);
                        assert(cur[j].device_id == oldc[j].device_id);
                    }
                }
                return ;
            }
            k = k + 1;
        }
        self.connections.push(conn);
        proof {
            let cur = cnview(self.connections@);
            assert(cur =~= oldc.push(conn@));
            assert forall|i: int, j: int| 0 <= i < j < cur.len() implies (
            #[trigger] cur[i].device_id) != (#[trigger] cur[j].device_id) by {
                if j == oldc.len() as int {
                    assert(oldc[i].device_id != device_id@);
                }
            }
        }
    }

    /// Removes a closing device's connection; an unknown device changes
    /// nothing. The caller broadcasts the `DeviceOffline` presence event.
    pub fn deregister_connection(&mut self, device_id: &str)
        requires
            old(self).wf(),
        ensures
            final(self).wf(),
            match conn_find(old(self)@.connections, device_id@) {
                Some(i) => final(self)@.connections == old(self)@.connections.remove(i),
                None => final(self)@.connections == old(self)@.connections,
            },
    {
        let ghost oldc = self@.connections;
        let n = self.connections.len();
        let mut k: usize = 0;
        while k < n
            invariant
                self.wf(),
                self == old(self),
                oldc == self@.connections,
                n == self@.connections.len(),
                k <= n,
                forall|i: int| 0 <= i < k ==> (#[trigger] self@.connections[i].device_id) != device_id@,
            decreases n - k,
        {
            if strutil::str_eq(self.connections[k].device_id.as_str(), device_id) {
                proof {
                    assert(oldc[k as int].device_id == device_id@);
                    let w = choose|i: int|
                        0 <= i < oldc.len() && (#[trigger] oldc[i].device_id) == device_id@;
                    if w != k as int {
                        assert(oldc[w].device_id != oldc[k as int].device_id);
                    }
                    oldc.remove_ensures(k as int);
                }
                self.connections.remove(k);
                proof {
                    let cur = cnview(self.connections@);
                    assert(cur =~= oldc.remove(k as int));
                    assert forall|i: int, j: int| 0 <= i < j < cur.len() implies (
                    #[trigger] cur[i].device_id) != (#[trigger] cur[j].device_id) by {
                        let i0 = if i < k as int { i } else { i + 1 };
                        let j0 = if j < k as int { j } else { j + 1 };
                        assert(cur[i] == oldc[i0]);
                        assert(cur[j] == oldc[j0]);
                    }
                }
                return ;
            }
            k = k + 1;
        }
    }

    /// Refreshes the heartbeat of a device's connection to `now`; an unknown
    /// device changes nothing.
    pub fn heartbeat(&mut self, device_id: &str, now: u64)
        requires
            old(self).wf(),
        ensures
            final(self).wf(),
            match conn_find(old(self)@.connections, device_id@) {
                Some(i) => final(self)@.connections == old(self)@.connections.update(
                    i,
                    DeviceConnectionView {
                        last_heartbeat: now,
                        ..old(self)@.connections[i]
                    },
                ),
                None => final(self)@.connections == old(self)@.connections,
            },
    {
        let ghost oldc = self@.connections;
        let n = self.connections.len();
        let mut k: usize = 0;
        while k < n
            invariant
                self.wf(),
                self == old(self),
                oldc == self@.connections,
                n == self@.connections.len(),
                k <= n,
                forall|i: int| 0 <= i < k ==> (#[trigger] self@.connections[i].device_id) != device_id@,
            decreases n - k,
        {
            if strutil::str_eq(self.connections[k].device_id.as_str(), device_id) {
                proof {
                    assert(oldc[k as int].device_id == device_id@);
                    let w = choose|i: int|
                        0 <= i < oldc.len() && (#[trigger] oldc[i].device_id) == device_id@;
                    if w != k as int {
                        assert(oldc[w].device_id != oldc[k as int].device_id);
                    }
                }
                let mut c = self.connections.remove(k);
                c.last_heartbeat = now;
                self.connections.insert(k, c);
                proof {
                    let cur = cnview(self.connections@);
                    assert(cur =~= oldc.update(
                        k as int,
                        DeviceConnectionView { last_heartbeat: now, ..oldc[k as int] },
                    ));
                    assert forall|i: int, j: int| 0 <= i < j < cur.len() implies (
                    #[trigger] cur[i].device_id) != (#[trigger] cur[j].device_id) by {
                        assert(cur[i].device_id == oldc[i].device_id);
                        assert(cur[j].device_id == oldc[j].device_id);
                    }
                }
                return ;
            }
            k = k + 1;
        }
    }

    /// The devices a message from `exclude_device_id` under `user_id` must be
    /// delivered to: the same user's other connections, in registration
    /// order — never the sender's own connection, never another user's.
    pub fn broadcast_targets(&self, user_id: &str, exclude_device_id: &str) -> (r: Vec<String>)
        ensures
            r.deep_view() == fanout_targets(self@.connections, user_id@, exclude_device_id@),
    {
        let ghost p = fanout_pred(user_id@, exclude_device_id@);
        let ghost ids = |c: DeviceConnectionView| c.device_id;
        let mut out: Vec<String> = Vec::new();
        let n = self.connections.len();
        let mut k: usize = 0;
        proof {
            assert(out.deep_view() =~= self@.connections.take(0).filter(p).map_values(ids));
        }
        while k < n
            invariant
                n == self@.connections.len(),
                k <= n,
                p == fanout_pred(user_id@, exclude_device_id@),
                ids == (|c: DeviceConnectionView| c.device_id),
                out.deep_view() == self@.connections.take(k as int).filter(p).map_values(ids),
            decreases n - k,
        {
            let ghost pre = out.deep_view();
            if strutil::str_eq(self.connections[k].user_id.as_str(), user_id)
                && !strutil::str_eq(self.connections[k].device_id.as_str(), exclude_device_id) {
                out.push(self.connections[k].device_id.clone());
                proof {
                    assert(out.deep_view() =~= pre.push(self@.connections[k as int].device_id));
                    assert(self@.connections.take(k as int).filter(p).push(
                        self@.connections[k as int],
                    ).map_values(ids) =~= self@.connections.take(k as int).filter(p).map_values(
                        ids,
                    ).push(self@.connections[k as int].device_id));
                }
            }
            proof {
                assert(self@.connections.take(k as int + 1) =~= self@.connections.take(
                    k as int,
                ).push(self@.connections[k as int]));
                assert(self@.connections[k as int] == self.connections@[k as int]@);
            }
            k = k + 1;
        }
        proof {
            assert(self@.connections.take(n as int) =~= self@.connections);
        }
        out
    }

    /// The devices of `user_id` whose connections have a live heartbeat at
    /// `now`, resolved against the sync service's device registry. A device
    /// with a connection but a stale heartbeat is not online.
    pub fn get_online_devices(
        &self,
        sync_service: &MultiDeviceSyncService,
        user_id: &str,
        now: u64,
    ) -> (r: Vec<DeviceInfo>)
        requires
            self.wf(),
        ensures
            dview(r@) == sync_service@.devices.filter(online_pred(self@.connections, user_id@, now)),
    {
        let ghost p = online_pred(self@.connections, user_id@, now);
        let devices = sync_service.user_devices_in_order(user_id);
        let ghost devs = sync_service@.devices;
        let mut out: Vec<DeviceInfo> = Vec::new();
        let n = devices.len();
        let mut k: usize = 0;
        proof {
            assert(dview(out@) =~= devs.take(0).filter(p));
        }
        let ghost udevs = dview(devices@);
        while k < n
            invariant
                self.wf(),
                n == devices@.len(),
                k <= n,
                p == online_pred(self@.connections, user_id@, now),
                udevs == dview(devices@),
                udevs == devs.filter(
                    |d: DeviceInfoView| d.user_id == user_id@,
                ),
                devs == sync_service@.devices,
                dview(out@) == udevs.take(k as int).filter(
                    |d: DeviceInfoView| conn_live(self@.connections, d.device_id, now),
                ),
            decreases n - k,
        {
            let ghost pre = dview(out@);
            let live = self.is_device_live(&devices[k].device_id, now);
            if live {
                let dup = devices[k].duplicate();
                out.push(dup);
                proof {
                    assert(dview(out@) =~= pre.push(udevs[k as int]));
                }
            }
            proof {
                assert(udevs.take(k as int + 1) =~= udevs.take(k as int).push(udevs[k as int]));
                assert(udevs[k as int] == devices@[k as int]@);
            }
            k = k + 1;
        }
        proof {
            assert(udevs.take(n as int) =~= udevs);
            lemma_filter_of_filter(devs, self@.connections, user_id@, now);
        }
        out
    }

    /// Whether the named device has a live connection at `now`.
    fn is_device_live(&self, device_id: &String, now: u64) -> (r: bool)
        requires
            self.wf(),
        ensures
            r == conn_live(self@.connections, device_id@, now),
    {
        let n = self.connections.len();
        let mut k: usize = 0;
        while k < n
            invariant
                self.wf(),
                n == self@.connections.len(),
                k <= n,
                forall|i: int|
                    0 <= i < k ==> !((#[trigger] self@.connections[i].device_id) == device_id@
                        && heartbeat_live(self@.connections[i].last_heartbeat, now)),
            decreases n - k,
        {
            if strutil::str_eq(self.connections[k].device_id.as_str(), device_id.as_str()) {
                let hb = self.connections[k].last_heartbeat;
                let live = hb > now || now - hb < HEARTBEAT_WINDOW_MS;
                proof {
                    assert(self@.connections[k as int].device_id == device_id@);
                    assert(live == heartbeat_live(self@.connections[k as int].last_heartbeat, now));
                    if !live {
                        assert forall|i: int|
                            0 <= i < self@.connections.len() implies !((#[trigger] self@.connections[i].device_id)
                                == device_id@ && heartbeat_live(
                                self@.connections[i].last_heartbeat,
                                now,
                            )) by {
                            if i != k as int && self@.connections[i].device_id == device_id@ {
                                if i < k as int {
                                    assert(self@.connections[i].device_id != self@.connections[k as int].device_id);
                                } else {
                                    assert(self@.connections[k as int].device_id != self@.connections[i].device_id);
                                }
                            }
                        }
                    }
                }
                return live;
            }
            k = k + 1;
        }
        false
    }
}

/// Membership test for the online devices of one user: theirs, with a live
/// connection.
pub open spec fn online_pred(
    conns: Seq<DeviceConnectionView>,
    user_id: Seq<char>,
    now: u64,
) -> spec_fn(DeviceInfoView) -> bool {
    |d: DeviceInfoView| d.user_id == user_id && conn_live(conns, d.device_id, now)
}

/// Filtering by user and then by liveness is filtering by both at once.
proof fn lemma_filter_of_filter(
    devs: Seq<DeviceInfoView>,
    conns: Seq<DeviceConnectionView>,
    user_id: Seq<char>,
    now: u64,
)
    ensures
        devs.filter(|d: DeviceInfoView| d.user_id == user_id).filter(
            |d: DeviceInfoView| conn_live(conns, d.device_id, now),
        ) == devs.filter(online_pred(conns, user_id, now)),
    decreases devs.len(),
{
    reveal(Seq::filter);
    if devs.len() != 0 {
        lemma_filter_of_filter(devs.drop_last(), conns, user_id, now);
    }
}

/// The sole authorization gate for fan-out, checked before any send: whether
/// a connection identified as `conn_device` / `conn_user` may receive this
/// message. Total: every message kind has an explicit decision.
pub fn should_forward_message(
    msg: &RealtimeSyncMessage,
    conn_device: &Option<String>,
    conn_user: &Option<String>,
) -> (r: bool)
    ensures
        r == should_forward_spec(msg@, osview_opt(*conn_device), osview_opt(*conn_user)),
{
    match msg {
        RealtimeSyncMessage::ChatMessage { sender_id, .. } => {
            match conn_user {
                Some(u) => strutil::str_eq(u.as_str(), sender_id.as_str()),
                None => false,
            }
        },
        RealtimeSyncMessage::FriendStatusUpdate { .. } => conn_user.is_some(),
        RealtimeSyncMessage::DataUpdate { sync_record } => {
            let user_ok = match conn_user {
                Some(u) => strutil::str_eq(u.as_str(), sync_record.user_id.as_str()),
                None => false,
            };
            let not_sender = match conn_device {
                Some(d) => !strutil::str_eq(d.as_str(), sync_record.device_id.as_str()),
                None => true,
            };
            user_ok && not_sender
        },
        RealtimeSyncMessage::DeviceOnline { user_id, .. } => {
            match conn_user {
                Some(u) => strutil::str_eq(u.as_str(), user_id.as_str()),
                None => false,
            }
        },
        RealtimeSyncMessage::DeviceOffline { user_id, .. } => {
            match conn_user {
                Some(u) => strutil::str_eq(u.as_str(), user_id.as_str()),
                None => false,
            }
        },
        RealtimeSyncMessage::SyncRequest { .. } => false,
        RealtimeSyncMessage::SyncResponse { .. } => false,
        RealtimeSyncMessage::Heartbeat { .. } => false,
    }
}

/// The view of an optional string identity.
pub open spec fn osview_opt(o: Option<String>) -> Option<Seq<char>> {
    match o {
        Some(s) => Some(s@),
        None => None,
    }
}

/// Answers a device's sync request with the records it has missed and a
/// fresh sync token, for delivery on the same connection.
pub fn make_sync_response(
    sync_service: &MultiDeviceSyncService,
    user_id: &str,
    device_id: &str,
    last_sync: u64,
) -> (r: RealtimeSyncMessage)
    ensures
        r@ matches RealtimeSyncMessageView::SyncResponse { records, next_sync_token } && {
            &&& records.to_multiset() == delta_records(
                sync_service@.records,
                user_id@,
                device_id@,
                last_sync,
            ).to_multiset()
            &&& sorted_by_timestamp(records)
            &&& next_sync_token.len() == 36
        },
{
    let records = sync_service.get_incremental_sync(user_id, device_id, last_sync);
    let next_sync_token = platform::new_uuid();
    RealtimeSyncMessage::SyncResponse { records, next_sync_token }
}

/// Fan-out isolation: a fan-out under one user reaches no other user's
/// device and never the sender's own. Every target is a connection of the
/// fan-out's user, distinct from the excluded device; in particular a device
/// whose connection belongs to a different user is never among the targets.
pub proof fn lemma_fanout_isolation(
    conns: Seq<DeviceConnectionView>,
    user_id: Seq<char>,
    exclude_device_id: Seq<char>,
)
    requires
        connections_unique(conns),
    ensures
        forall|k: int|
            0 <= k < fanout_targets(conns, user_id, exclude_device_id).len() ==> (
            #[trigger] fanout_targets(conns, user_id, exclude_device_id)[k]) != exclude_device_id,
        forall|j: int|
            0 <= j < conns.len() && (#[trigger] conns[j].user_id) != user_id
                ==> !fanout_targets(conns, user_id, exclude_device_id).contains(
                conns[j].device_id,
            ),
{
    let p = fanout_pred(user_id, exclude_device_id);
    let f = conns.filter(p);
    let ids = |c: DeviceConnectionView| c.device_id;
    let t = fanout_targets(conns, user_id, exclude_device_id);
    assert forall|k: int| 0 <= k < t.len() implies (#[trigger] t[k]) != exclude_device_id by {
        assert(t[k] == f[k].device_id);
        assert(p(f[k]));
    }
    assert forall|j: int|
        0 <= j < conns.len() && (#[trigger] conns[j].user_id) != user_id implies !t.contains(
        conns[j].device_id,
    ) by {
        if t.contains(conns[j].device_id) {
            let k = choose|k: int| 0 <= k < t.len() && t[k] == conns[j].device_id;
            assert(t[k] == f[k].device_id);
            assert(p(f[k]));
            assert(f.contains(f[k]));
            conns.lemma_filter_contains_rev(p, f[k]);
            let i = choose|i: int| 0 <= i < conns.len() && conns[i] == f[k];
            if i != j {
                if i < j {
                    assert(conns[i].device_id != conns[j].device_id);
                } else {
                    assert(conns[j].device_id != conns[i].device_id);
                }
            }
        }
    }
}

} // verus!
