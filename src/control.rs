//! The reactor's bookkeeping: which torrents exist, which torrent owns
//! each peer, what an event source is, which periodic jobs are due, and the
//! answer to each RPC request.  The event loop itself, which waits on the
//! poller and performs the I/O, hands this state plain values.
use vstd::prelude::*;
use crate::throttle::{Throttler, Throttle, ThrottleData, id_set};

verus! {

/// Bucket ceiling of each throttle direction, in bytes.
pub const DEFAULT_MAX_BUCKET: usize = 1048576;

/// Re-announce period, in milliseconds.
pub const TRACKER_PERIOD_MS: u64 = 60000;

/// Unchoke recomputation period, in milliseconds.
pub const UNCHOKE_PERIOD_MS: u64 = 1000;

/// Session snapshot period, in milliseconds.
pub const SESSION_PERIOD_MS: u64 = 1000;

/// One swarm, as the reactor tracks it.
pub struct Torrent {
    pub id: usize,
    /// The 20-byte infohash.
    pub hash: Vec<u8>,
    /// Ids of the peers it owns.
    pub peers: Vec<usize>,
    pub paused: bool,
}

/// What a torrent reports to RPC clients.
#[derive(Clone, Copy, Debug, PartialEq, Eq, Structural)]
pub struct TorrentInfo {
    pub id: usize,
    pub paused: bool,
    pub peers: usize,
}

/// A request of the RPC surface.  A torrent to add comes as its infohash,
/// read from the metainfo by the caller.
#[derive(Debug)]
pub enum RpcRequest {
    ListTorrents,
    TorrentInfo(usize),
    AddTorrent(Vec<u8>),
    PauseTorrent(usize),
    ResumeTorrent(usize),
    RemoveTorrent(usize),
    ThrottleUpload(usize),
    ThrottleDownload(usize),
    Shutdown,
}

#[derive(Clone, Copy, Debug, PartialEq, Eq, Structural)]
pub enum RpcError {
    TorrentNotFound,
    DuplicateTorrent,
    IdsExhausted,
}

#[derive(Debug, PartialEq, Eq)]
pub enum RpcResponse {
    Torrents(Vec<usize>),
    TorrentInfo(TorrentInfo),
    Ack,
    Failed(RpcError),
}

/// The source of a reactor event.
#[derive(Clone, Copy, Debug, PartialEq, Eq, Structural)]
pub enum Source {
    Tracker,
    Disk,
    Control,
    ThrottleTick,
    FlushTick,
    JobTimer,
    Peer(usize),
}

/// The periodic jobs due at one job tick.
#[derive(Clone, Copy, Debug, PartialEq, Eq, Structural)]
pub struct Jobs {
    pub trackers: bool,
    pub unchoke: bool,
    pub session: bool,
}

pub struct Control {
    pub torrents: Vec<Torrent>,
    /// Owning torrent of each peer, as (peer id, torrent id).
    pub peers: Vec<(usize, usize)>,
    pub tid_cnt: usize,
    pub throttler: Throttler,
    pub trk_id: usize,
    pub disk_id: usize,
    pub ctrl_id: usize,
    pub job_timer: usize,
    /// Times of the last runs of the periodic jobs, in milliseconds.
    pub tracker_update: u64,
    pub unchoke_update: u64,
    pub session_update: u64,
}

/// A job with `period` last ran at `last` and is due at `now`.
pub open spec fn due(last: u64, now: u64, period: u64) -> bool {
    now >= last && now - last >= period
}

impl Control {
    /// The index maps `pid` to torrent `tid`.
    pub open spec fn index_has(&self, pid: usize, tid: usize) -> bool {
        exists|k: int| 0 <= k < self.peers@.len() && #[trigger] self.peers@[k] == (pid, tid)
    }

    /// Torrent `tid` owns peer `pid`.
    pub open spec fn torrent_has(&self, pid: usize, tid: usize) -> bool {
        exists|i: int| 0 <= i < self.torrents@.len() && #[trigger] self.torrents@[i].id == tid
            && self.torrents@[i].peers@.contains(pid)
    }

    /// A torrent with id `tid` exists.
    pub open spec fn has_torrent(&self, tid: usize) -> bool {
        exists|i: int| 0 <= i < self.torrents@.len() && #[trigger] self.torrents@[i].id == tid
    }

    /// The index knows peer `pid`.
    pub open spec fn has_peer(&self, pid: usize) -> bool {
        exists|k: int| 0 <= k < self.peers@.len() && #[trigger] self.peers@[k].0 == pid
    }

    /// The peer index and the torrents' peer sets describe the same
    /// ownership, and each peer has one owner.
    pub open spec fn bijection(&self) -> bool {
        &&& forall|pid: usize, tid: usize| #[trigger] self.index_has(pid, tid) <==> self.torrent_has(pid, tid)
        &&& forall|a: int, b: int| 0 <= a < self.peers@.len() && 0 <= b < self.peers@.len() && a != b
            ==> self.peers@[a].0 != self.peers@[b].0
    }

    pub open spec fn wf(&self) -> bool {
        &&& self.throttler.wf()
        &&& self.bijection()
        &&& forall|i: int, j: int| 0 <= i < self.torrents@.len() && 0 <= j < self.torrents@.len() && i != j
            ==> self.torrents@[i].id != self.torrents@[j].id
        &&& forall|i: int, j: int| 0 <= i < self.torrents@.len() && 0 <= j < self.torrents@.len() && i != j
            ==> self.torrents@[i].hash@ != self.torrents@[j].hash@
        &&& forall|i: int| 0 <= i < self.torrents@.len() ==> (#[trigger] self.torrents@[i]).id < self.tid_cnt
        &&& forall|i: int| 0 <= i < self.torrents@.len() ==> (#[trigger] self.torrents@[i]).peers@.no_duplicates()
    }

    /// No torrents, no peers, an unlimited throttler with the default
    /// ceiling; the periodic jobs count from `now_ms`.
    pub fn new(trk_id: usize, disk_id: usize, ctrl_id: usize, job_timer: usize, throttle_id: usize, flush_id: usize, now_ms: u64) -> (r: Control)
        ensures
            r.wf(),
            r.torrents@.len() == 0,
            r.peers@.len() == 0,
            r.tid_cnt == 0,
            r.throttler.ul_data.is_fresh(0, DEFAULT_MAX_BUCKET),
            r.throttler.dl_data.is_fresh(0, DEFAULT_MAX_BUCKET),
            r.throttler.id == throttle_id && r.throttler.fid == flush_id,
            r.trk_id == trk_id && r.disk_id == disk_id && r.ctrl_id == ctrl_id && r.job_timer == job_timer,
            r.tracker_update == now_ms && r.unchoke_update == now_ms && r.session_update == now_ms,
    {
        Control {
            torrents: Vec::new(),
            peers: Vec::new(),
            tid_cnt: 0,
            throttler: Throttler::new(0, 0, DEFAULT_MAX_BUCKET, throttle_id, flush_id),
            trk_id,
            disk_id,
            ctrl_id,
            job_timer,
            tracker_update: now_ms,
            unchoke_update: now_ms,
            session_update: now_ms,
        }
    }

    /// Where an event with registration `id` comes from: one of the
    /// reactor's own registrations, else a peer socket.
    pub fn classify(&self, id: usize) -> (r: Source)
        ensures
            r == if id == self.trk_id {
                Source::Tracker
            } else if id == self.disk_id {
                Source::Disk
            } else if id == self.ctrl_id {
                Source::Control
            } else if id == self.throttler.id {
                Source::ThrottleTick
            } else if id == self.throttler.fid {
                Source::FlushTick
            } else if id == self.job_timer {
                Source::JobTimer
            } else {
                Source::Peer(id)
            },
    {
        if id == self.trk_id {
            Source::Tracker
        } else if id == self.disk_id {
            Source::Disk
        } else if id == self.ctrl_id {
            Source::Control
        } else if id == self.throttler.id() {
            Source::ThrottleTick
        } else if id == self.throttler.fid() {
            Source::FlushTick
        } else if id == self.job_timer {
            Source::JobTimer
        } else {
            Source::Peer(id)
        }
    }

    /// The periodic jobs due at `now_ms`; each due job counts as run now.
    pub fn update_jobs(&mut self, now_ms: u64) -> (r: Jobs)
        ensures
            r == (Jobs {
                trackers: due(old(self).tracker_update, now_ms, TRACKER_PERIOD_MS),
                unchoke: due(old(self).unchoke_update, now_ms, UNCHOKE_PERIOD_MS),
                session: due(old(self).session_update, now_ms, SESSION_PERIOD_MS),
            }),
            *final(self) == (Control {
                tracker_update: if r.trackers { now_ms } else { old(self).tracker_update },
                unchoke_update: if r.unchoke { now_ms } else { old(self).unchoke_update },
                session_update: if r.session { now_ms } else { old(self).session_update },
                ..*old(self)
            }),
    {
        let trackers = now_ms >= self.tracker_update && now_ms - self.tracker_update >= TRACKER_PERIOD_MS;
        let unchoke = now_ms >= self.unchoke_update && now_ms - self.unchoke_update >= UNCHOKE_PERIOD_MS;
        let session = now_ms >= self.session_update && now_ms - self.session_update >= SESSION_PERIOD_MS;
        if trackers {
            self.tracker_update = now_ms;
        }
        if unchoke {
            self.unchoke_update = now_ms;
        }
        if session {
            self.session_update = now_ms;
        }
        Jobs { trackers, unchoke, session }
    }

    /// The peers refused tokens since the last flush, as (download side,
    /// upload side); the caller re-polls the first readable and the second
    /// writable.
    pub fn flush_blocked_peers(&mut self) -> (r: (Vec<usize>, Vec<usize>))
        requires
            old(self).wf(),
        ensures
            final(self).wf(),
            r.0@ == old(self).throttler.dl_data.throttled@,
            r.1@ == old(self).throttler.ul_data.throttled@,
            final(self).throttler.dl_data.throttled@.len() == 0,
            final(self).throttler.ul_data.throttled@.len() == 0,
            final(self).throttler.dl_data.same_counters(old(self).throttler.dl_data),
            final(self).throttler.ul_data.same_counters(old(self).throttler.ul_data),
            final(self).torrents == old(self).torrents,
            final(self).peers == old(self).peers,
    {
        let ghost before = *self;
        let dl = self.throttler.flush_dl();
        let ul = self.throttler.flush_ul();
        proof {
            lemma_wf_same_ownership(before, *self);
        }
        (dl, ul)
    }

    /// Index of torrent `tid` in the torrent list.
    pub fn find_torrent(&self, tid: usize) -> (r: Option<usize>)
        ensures
            r matches Some(i) ==> i < self.torrents@.len() && self.torrents@[i as int].id == tid,
            r is None <==> !self.has_torrent(tid),
    {
        let mut i: usize = 0;
        while i < self.torrents.len()
            invariant
                i <= self.torrents@.len(),
                forall|j: int| 0 <= j < i ==> self.torrents@[j].id != tid,
            decreases self.torrents.len() - i,
        {
            if self.torrents[i].id == tid {
                return Some(i);
            }
            i = i + 1;
        }
        None
    }

    /// Id of the torrent with infohash `hash`.
    pub fn find_by_hash(&self, hash: &Vec<u8>) -> (r: Option<usize>)
        ensures
            r matches Some(tid) ==> exists|i: int| 0 <= i < self.torrents@.len() && #[trigger] self.torrents@[i].id == tid
                && self.torrents@[i].hash@ == hash@,
            r is None <==> forall|i: int| 0 <= i < self.torrents@.len() ==> (#[trigger] self.torrents@[i]).hash@ != hash@,
    {
        let mut i: usize = 0;
        while i < self.torrents.len()
            invariant
                i <= self.torrents@.len(),
                forall|j: int| 0 <= j < i ==> (#[trigger] self.torrents@[j]).hash@ != hash@,
            decreases self.torrents.len() - i,
        {
            if bytes_eq(&self.torrents[i].hash, hash) {
                return Some(self.torrents[i].id);
            }
            i = i + 1;
        }
        None
    }

    /// Owner of peer `pid`, by the index.
    pub fn peer_owner(&self, pid: usize) -> (r: Option<usize>)
        ensures
            r matches Some(tid) ==> self.index_has(pid, tid),
            r is None <==> !self.has_peer(pid),
    {
        let mut k: usize = 0;
        while k < self.peers.len()
            invariant
                k <= self.peers@.len(),
                forall|j: int| 0 <= j < k ==> (#[trigger] self.peers@[j]).0 != pid,
            decreases self.peers.len() - k,
        {
            if self.peers[k].0 == pid {
                proof {
                    assert(self.peers@[k as int] == (pid, self.peers@[k as int].1));
                }
                return Some(self.peers[k].1);
            }
            k = k + 1;
        }
        None
    }
}

proof fn lemma_wf_same_ownership(a: Control, b: Control)
    requires
        a.wf(),
        b.throttler.wf(),
        b.torrents == a.torrents,
        b.peers == a.peers,
        b.tid_cnt == a.tid_cnt,
    ensures
        b.wf(),
        forall|p: usize, t: usize| #[trigger] b.index_has(p, t) == a.index_has(p, t),
{
    assert forall|p: usize, t: usize| #[trigger] b.index_has(p, t) <==> b.torrent_has(p, t) by {
        assert(a.index_has(p, t) <==> a.torrent_has(p, t));
    }
    assert forall|p: usize, t: usize| #[trigger] b.index_has(p, t) == a.index_has(p, t) by {
        assert(a.index_has(p, t) <==> a.torrent_has(p, t));
    }
}

impl Control {
    /// `post` is this state after `add_torrent(hash)` returned `r`.
    pub open spec fn added_rel(&self, hash: Seq<u8>, post: &Control, r: Result<usize, RpcError>) -> bool {
        let dup = exists|i: int| 0 <= i < self.torrents@.len() && (#[trigger] self.torrents@[i]).hash@ == hash;
        &&& r == if dup {
            Err(RpcError::DuplicateTorrent)
        } else if self.tid_cnt == usize::MAX {
            Err(RpcError::IdsExhausted)
        } else {
            Ok(self.tid_cnt)
        }
        &&& r is Err ==> *post == *self
        &&& r is Ok ==> {
            &&& post.torrents@.len() == self.torrents@.len() + 1
            &&& post.torrents@.drop_last() == self.torrents@
            &&& post.torrents@.last().id == self.tid_cnt
            &&& post.torrents@.last().hash@ == hash
            &&& post.torrents@.last().peers@.len() == 0
            &&& !post.torrents@.last().paused
            &&& post.tid_cnt == self.tid_cnt + 1
            &&& post.peers == self.peers
            &&& post.throttler == self.throttler
            &&& post.same_registrations(*self)
        }
    }

    /// Adds a torrent with infohash `hash` under a fresh id, unless one with
    /// that hash exists.
    pub fn add_torrent(&mut self, hash: Vec<u8>) -> (r: Result<usize, RpcError>)
        requires
            old(self).wf(),
        ensures
            final(self).wf(),
            old(self).added_rel(hash@, final(self), r),
    {
        if self.find_by_hash(&hash).is_some() {
            return Err(RpcError::DuplicateTorrent);
        }
        if self.tid_cnt == usize::MAX {
            return Err(RpcError::IdsExhausted);
        }
        let tid = self.tid_cnt;
        let ghost before = *self;
        self.torrents.push(Torrent { id: tid, hash, peers: Vec::new(), paused: false });
        self.tid_cnt = tid + 1;
        proof {
            assert(self.torrents@.drop_last() =~= before.torrents@);
            let n = before.torrents@.len() as int;
            assert forall|p: usize, t: usize| #[trigger] self.torrent_has(p, t) <==> before.torrent_has(p, t) by {
                if self.torrent_has(p, t) {
                    let i = choose|i: int| 0 <= i < self.torrents@.len() && #[trigger] self.torrents@[i].id == t
                        && self.torrents@[i].peers@.contains(p);
                    assert(i < n);
                    assert(before.torrents@[i] == self.torrents@[i]);
                }
                if before.torrent_has(p, t) {
                    let i = choose|i: int| 0 <= i < before.torrents@.len() && #[trigger] before.torrents@[i].id == t
                        && before.torrents@[i].peers@.contains(p);
                    assert(self.torrents@[i] == before.torrents@[i]);
                }
            }
            assert(self.peers == before.peers);
            assert forall|p: usize, t: usize| #[trigger] self.index_has(p, t) <==> self.torrent_has(p, t) by {
                assert(before.index_has(p, t) <==> before.torrent_has(p, t));
                assert(self.index_has(p, t) == before.index_has(p, t));
                assert(self.torrent_has(p, t) == before.torrent_has(p, t));
            }
        }
        Ok(tid)
    }

    /// Records that torrent `tid` owns the new peer `pid`.
    pub fn add_peer(&mut self, tid: usize, pid: usize)
        requires
            old(self).wf(),
            old(self).has_torrent(tid),
            !old(self).has_peer(pid),
        ensures
            final(self).wf(),
            forall|p: usize, t: usize| #[trigger] final(self).index_has(p, t) <==> (old(self).index_has(p, t)
                || (p == pid && t == tid)),
            final(self).torrents@.len() == old(self).torrents@.len(),
            forall|i: int| 0 <= i < old(self).torrents@.len() ==> (#[trigger] final(self).torrents@[i]).id
                == old(self).torrents@[i].id && final(self).torrents@[i].paused == old(self).torrents@[i].paused,
            final(self).tid_cnt == old(self).tid_cnt,
            final(self).throttler == old(self).throttler,
            final(self).same_registrations(*old(self)),
    {
        let ghost before = *self;
        let i = match self.find_torrent(tid) {
            Some(i) => i,
            None => {
                return;
            },
        };
        proof {
            assert(!before.index_has(pid, tid)) by {
                if before.index_has(pid, tid) {
                    let k = choose|k: int| 0 <= k < before.peers@.len() && #[trigger] before.peers@[k] == (pid, tid);
                    assert(before.peers@[k].0 == pid);
                }
            }
            assert(!before.torrents@[i as int].peers@.contains(pid));
        }
        self.torrents[i].peers.push(pid);
        self.peers.push((pid, tid));
        proof {
            assert(self.torrents@.len() == before.torrents@.len());
            assert(self.torrents@[i as int].id == tid);
            assert(self.torrents@[i as int].peers@ == before.torrents@[i as int].peers@.push(pid));
            assert(forall|j: int| 0 <= j < self.torrents@.len() && j != i ==> self.torrents@[j] == before.torrents@[j]);
            assert forall|p: usize, t: usize| #[trigger] self.torrent_has(p, t) <==> (before.torrent_has(p, t)
                || (p == pid && t == tid)) by {
                if self.torrent_has(p, t) {
                    let j = choose|j: int| 0 <= j < self.torrents@.len() && #[trigger] self.torrents@[j].id == t
                        && self.torrents@[j].peers@.contains(p);
                    if j != i {
                        assert(before.torrents@[j] == self.torrents@[j]);
                    } else if p != pid {
                        let w = choose|w: int| 0 <= w < self.torrents@[j].peers@.len() && self.torrents@[j].peers@[w] == p;
                        assert(before.torrents@[j].peers@[w] == p);
                    }
                }
                if before.torrent_has(p, t) {
                    let j = choose|j: int| 0 <= j < before.torrents@.len() && #[trigger] before.torrents@[j].id == t
                        && before.torrents@[j].peers@.contains(p);
                    if j == i {
                        let w = choose|w: int| 0 <= w < before.torrents@[j].peers@.len() && before.torrents@[j].peers@[w] == p;
                        assert(self.torrents@[j].peers@[w] == p);
                    } else {
                        assert(self.torrents@[j] == before.torrents@[j]);
                    }
                }
                if p == pid && t == tid {
                    let last = before.torrents@[i as int].peers@.len() as int;
                    assert(self.torrents@[i as int].peers@[last] == pid);
                    assert(self.torrents@[i as int].peers@.contains(pid));
                    assert(self.torrents@[i as int].id == tid);
                }
            }
            assert forall|p: usize, t: usize| #[trigger] self.index_has(p, t) <==> (before.index_has(p, t)
                || (p == pid && t == tid)) by {
                if self.index_has(p, t) {
                    let k = choose|k: int| 0 <= k < self.peers@.len() && #[trigger] self.peers@[k] == (p, t);
                    if k < before.peers@.len() {
                        assert(before.peers@[k] == (p, t));
                    }
                }
                if before.index_has(p, t) {
                    let k = choose|k: int| 0 <= k < before.peers@.len() && #[trigger] before.peers@[k] == (p, t);
                    assert(self.peers@[k] == (p, t));
                }
                if p == pid && t == tid {
                    assert(self.peers@[before.peers@.len() as int] == (p, t));
                }
                assert(before.index_has(p, t) <==> before.torrent_has(p, t));
            }
            assert forall|a: int, b: int| 0 <= a < self.peers@.len() && 0 <= b < self.peers@.len() && a != b
                implies self.peers@[a].0 != self.peers@[b].0 by {
                let n = before.peers@.len() as int;
                if a == n {
                    assert(before.peers@[b].0 == self.peers@[b].0);
                } else if b == n {
                    assert(before.peers@[a].0 == self.peers@[a].0);
                }
            }
        }
    }
}

impl Control {
    /// Drops peer `pid`: the index and its torrent forget it, and it leaves
    /// both throttled sets.  Returns the torrent that owned it.
    pub fn remove_peer(&mut self, pid: usize) -> (r: usize)
        requires
            old(self).wf(),
            old(self).has_peer(pid),
        ensures
            final(self).wf(),
            old(self).index_has(pid, r),
            forall|p: usize, t: usize| #[trigger] final(self).index_has(p, t) <==> (old(self).index_has(p, t)
                && p != pid),
            id_set(final(self).throttler.ul_data.throttled@) == id_set(old(self).throttler.ul_data.throttled@).remove(pid),
            id_set(final(self).throttler.dl_data.throttled@) == id_set(old(self).throttler.dl_data.throttled@).remove(pid),
            final(self).throttler.ul_data.same_counters(old(self).throttler.ul_data),
            final(self).throttler.dl_data.same_counters(old(self).throttler.dl_data),
            final(self).torrents@.len() == old(self).torrents@.len(),
            forall|i: int| 0 <= i < old(self).torrents@.len() ==> (#[trigger] final(self).torrents@[i]).id
                == old(self).torrents@[i].id && final(self).torrents@[i].paused == old(self).torrents@[i].paused,
            final(self).tid_cnt == old(self).tid_cnt,
            final(self).peers@.len() == old(self).peers@.len() - 1,
            final(self).throttler.same_timers(old(self).throttler),
            final(self).same_registrations(*old(self)),
    {
        let ghost before = *self;
        let mut k: usize = 0;
        while k < self.peers.len() && self.peers[k].0 != pid
            invariant
                *self == before,
                k <= self.peers@.len(),
                forall|j: int| 0 <= j < k ==> (#[trigger] self.peers@[j]).0 != pid,
            decreases self.peers.len() - k,
        {
            k = k + 1;
        }
        if k == self.peers.len() {
            // unreachable: the index knows pid
            proof {
                let w = choose|w: int| 0 <= w < before.peers@.len() && #[trigger] before.peers@[w].0 == pid;
                assert(self.peers@[w].0 != pid);
            }
            return 0;
        }
        let tid = self.peers[k].1;
        proof {
            assert(before.peers@[k as int] == (pid, tid));
            assert(before.index_has(pid, tid));
            assert(before.torrent_has(pid, tid));
            assert forall|t: usize| #[trigger] before.index_has(pid, t) implies t == tid by {
                let k2 = choose|k2: int| 0 <= k2 < before.peers@.len() && #[trigger] before.peers@[k2] == (pid, t);
                assert(before.peers@[k2].0 == before.peers@[k as int].0);
            }
        }
        self.peers.remove(k);
        let i = match self.find_torrent(tid) {
            Some(i) => i,
            None => {
                // unreachable: the owner of an indexed peer exists
                proof {
                    let w = choose|w: int| 0 <= w < before.torrents@.len() && #[trigger] before.torrents@[w].id == tid
                        && before.torrents@[w].peers@.contains(pid);
                    assert(self.has_torrent(tid));
                }
                return tid;
            },
        };
        let mut j: usize = 0;
        while j < self.torrents[i].peers.len() && self.torrents[i].peers[j] != pid
            invariant
                i < self.torrents@.len(),
                j <= self.torrents@[i as int].peers@.len(),
                forall|w: int| 0 <= w < j ==> self.torrents@[i as int].peers@[w] != pid,
            decreases self.torrents@[i as int].peers@.len() - j,
        {
            j = j + 1;
        }
        let ghost mid = *self;
        if j < self.torrents[i].peers.len() {
            self.torrents[i].peers.remove(j);
        }
        proof {
            let ti = i as int;
            assert(self.torrents@.len() == before.torrents@.len());
            assert(forall|x: int| 0 <= x < self.torrents@.len() && x != ti ==> self.torrents@[x] == before.torrents@[x]);
            assert(self.torrents@[ti].id == tid);
            // pid sits in torrent ti, once
            let wi = choose|wi: int| 0 <= wi < before.torrents@.len() && #[trigger] before.torrents@[wi].id == tid
                && before.torrents@[wi].peers@.contains(pid);
            assert(wi == ti);
            assert(j < before.torrents@[ti].peers@.len());
            assert(self.torrents@[ti].peers@ == before.torrents@[ti].peers@.remove(j as int));
            assert forall|p: usize, t: usize| #[trigger] self.torrent_has(p, t) <==> (before.torrent_has(p, t) && p != pid) by {
                if self.torrent_has(p, t) {
                    let x = choose|x: int| 0 <= x < self.torrents@.len() && #[trigger] self.torrents@[x].id == t
                        && self.torrents@[x].peers@.contains(p);
                    let w = choose|w: int| 0 <= w < self.torrents@[x].peers@.len() && self.torrents@[x].peers@[w] == p;
                    if x == ti {
                        if w < j {
                            assert(before.torrents@[ti].peers@[w] == p);
                        } else {
                            assert(before.torrents@[ti].peers@[w + 1] == p);
                        }
                        assert(before.torrents@[x].peers@.contains(p));
                        assert(p != pid);
                    } else {
                        assert(before.torrents@[x] == self.torrents@[x]);
                        if p == pid {
                            assert(before.torrent_has(pid, t));
                            assert(before.index_has(pid, t));
                        }
                    }
                }
                if before.torrent_has(p, t) && p != pid {
                    let x = choose|x: int| 0 <= x < before.torrents@.len() && #[trigger] before.torrents@[x].id == t
                        && before.torrents@[x].peers@.contains(p);
                    let w = choose|w: int| 0 <= w < before.torrents@[x].peers@.len() && before.torrents@[x].peers@[w] == p;
                    if x == ti {
                        if w < j {
                            assert(self.torrents@[ti].peers@[w] == p);
                        } else {
                            assert(w != j);
                            assert(self.torrents@[ti].peers@[w - 1] == p);
                        }
                    } else {
                        assert(self.torrents@[x] == before.torrents@[x]);
                    }
                }
            }
            assert(self.peers@ == before.peers@.remove(k as int));
            assert forall|p: usize, t: usize| #[trigger] self.index_has(p, t) <==> (before.index_has(p, t) && p != pid) by {
                if self.index_has(p, t) {
                    let x = choose|x: int| 0 <= x < self.peers@.len() && #[trigger] self.peers@[x] == (p, t);
                    if x < k {
                        assert(before.peers@[x] == (p, t));
                        assert(x != k);
                    } else {
                        assert(before.peers@[x + 1] == (p, t));
                    }
                }
                if before.index_has(p, t) && p != pid {
                    let x = choose|x: int| 0 <= x < before.peers@.len() && #[trigger] before.peers@[x] == (p, t);
                    if x < k {
                        assert(self.peers@[x] == (p, t));
                    } else {
                        assert(x != k);
                        assert(self.peers@[x - 1] == (p, t));
                    }
                }
                assert(before.index_has(p, t) <==> before.torrent_has(p, t));
            }
            assert forall|a: int, b: int| 0 <= a < self.peers@.len() && 0 <= b < self.peers@.len() && a != b
                implies self.peers@[a].0 != self.peers@[b].0 by {
                let a0 = if a < k { a } else { a + 1 };
                let b0 = if b < k { b } else { b + 1 };
                assert(self.peers@[a] == before.peers@[a0]);
                assert(self.peers@[b] == before.peers@[b0]);
            }
            assert forall|x: int| 0 <= x < self.torrents@.len() implies (#[trigger] self.torrents@[x]).peers@.no_duplicates() by {
                if x == ti {
                    let s0 = before.torrents@[ti].peers@;
                    assert forall|a: int, b: int| 0 <= a < s0.len() - 1 && 0 <= b < s0.len() - 1 && a != b
                        implies self.torrents@[ti].peers@[a] != self.torrents@[ti].peers@[b] by {
                        let a0 = if a < j { a } else { a + 1 };
                        let b0 = if b < j { b } else { b + 1 };
                        assert(self.torrents@[ti].peers@[a] == s0[a0]);
                        assert(self.torrents@[ti].peers@[b] == s0[b0]);
                    }
                }
            }
        }
        let ghost pre = *self;
        let handle = Throttle { id: pid };
        handle.release(&mut self.throttler);
        proof {
            lemma_wf_same_ownership(pre, *self);
        }
        tid
    }
}

impl Control {
    /// Removes torrent `tid` and every peer it owns.  Returns whether it
    /// existed.
    pub fn remove_torrent(&mut self, tid: usize) -> (r: bool)
        requires
            old(self).wf(),
        ensures
            final(self).wf(),
            r == old(self).has_torrent(tid),
            old(self).removed_rel(tid, final(self)),
            !r ==> *final(self) == *old(self),
    {
        let ghost before = *self;
        let mut i: usize = match self.find_torrent(tid) {
            Some(i) => i,
            None => {
                proof {
                    assert forall|p: usize, t: usize| #[trigger] self.index_has(p, t) implies t != tid by {
                        assert(self.torrent_has(p, t));
                    }
                }
                return false;
            },
        };
        while self.torrents[i].peers.len() > 0
            invariant
                self.wf(),
                i < self.torrents@.len(),
                self.torrents@[i as int].id == tid,
                self.tid_cnt == before.tid_cnt,
                self.throttler.ul_data.same_counters(before.throttler.ul_data),
                self.throttler.dl_data.same_counters(before.throttler.dl_data),
                self.throttler.same_timers(before.throttler),
                self.same_registrations(before),
                forall|t: usize| #[trigger] self.has_torrent(t) == before.has_torrent(t),
                forall|p: usize, t: usize| t != tid ==> (#[trigger] self.index_has(p, t) <==> before.index_has(p, t)),
                forall|p: usize| #[trigger] self.index_has(p, tid) ==> before.index_has(p, tid),
            decreases self.peers@.len(),
        {
            let last = self.torrents[i].peers.len() - 1;
            let pid = self.torrents[i].peers[last];
            proof {
                assert(self.torrents@[i as int].peers@.contains(pid)) by {
                    assert(self.torrents@[i as int].peers@[last as int] == pid);
                }
                assert(self.torrent_has(pid, tid));
                assert(self.index_has(pid, tid));
                let k = choose|k: int| 0 <= k < self.peers@.len() && #[trigger] self.peers@[k] == (pid, tid);
                assert(self.peers@[k].0 == pid);
            }
            let ghost mid = *self;
            self.remove_peer(pid);
            proof {
                assert forall|t: usize| #[trigger] self.has_torrent(t) == mid.has_torrent(t) by {
                    if mid.has_torrent(t) {
                        let x = choose|x: int| 0 <= x < mid.torrents@.len() && #[trigger] mid.torrents@[x].id == t;
                        assert(self.torrents@[x].id == t);
                    }
                    if self.has_torrent(t) {
                        let x = choose|x: int| 0 <= x < self.torrents@.len() && #[trigger] self.torrents@[x].id == t;
                        assert(mid.torrents@[x].id == t);
                    }
                }
            }
            i = match self.find_torrent(tid) {
                Some(i) => i,
                None => {
                    // unreachable: removing a peer keeps every torrent
                    return true;
                },
            };
        }
        let ghost mid = *self;
        self.torrents.remove(i);
        proof {
            let ti = i as int;
            assert forall|p: usize, t: usize| #[trigger] self.torrent_has(p, t) <==> mid.torrent_has(p, t) by {
                if self.torrent_has(p, t) {
                    let x = choose|x: int| 0 <= x < self.torrents@.len() && #[trigger] self.torrents@[x].id == t
                        && self.torrents@[x].peers@.contains(p);
                    let x0 = if x < ti { x } else { x + 1 };
                    assert(mid.torrents@[x0] == self.torrents@[x]);
                }
                if mid.torrent_has(p, t) {
                    let x = choose|x: int| 0 <= x < mid.torrents@.len() && #[trigger] mid.torrents@[x].id == t
                        && mid.torrents@[x].peers@.contains(p);
                    if x == ti {
                        let w = choose|w: int| 0 <= w < mid.torrents@[x].peers@.len() && mid.torrents@[x].peers@[w] == p;
                    } else {
                        let x1 = if x < ti { x } else { x - 1 };
                        assert(self.torrents@[x1] == mid.torrents@[x]);
                    }
                }
            }
            assert(self.peers == mid.peers);
            assert forall|p: usize, t: usize| #[trigger] self.index_has(p, t) <==> self.torrent_has(p, t) by {
                assert(mid.index_has(p, t) <==> mid.torrent_has(p, t));
                assert(self.index_has(p, t) == mid.index_has(p, t));
            }
            assert forall|t: usize| #[trigger] self.has_torrent(t) == (mid.has_torrent(t) && t != tid) by {
                if self.has_torrent(t) {
                    let x = choose|x: int| 0 <= x < self.torrents@.len() && #[trigger] self.torrents@[x].id == t;
                    let x0 = if x < ti { x } else { x + 1 };
                    assert(mid.torrents@[x0].id == t);
                    assert(x0 != ti);
                }
                if mid.has_torrent(t) && t != tid {
                    let x = choose|x: int| 0 <= x < mid.torrents@.len() && #[trigger] mid.torrents@[x].id == t;
                    let x1 = if x < ti { x } else { x - 1 };
                    assert(self.torrents@[x1].id == t);
                }
            }
            assert forall|p: usize, t: usize| #[trigger] self.index_has(p, t) <==> (before.index_has(p, t) && t != tid) by {
                assert(self.index_has(p, t) == mid.index_has(p, t));
                if t == tid && self.index_has(p, t) {
                    assert(self.torrent_has(p, t));
                    let x = choose|x: int| 0 <= x < self.torrents@.len() && #[trigger] self.torrents@[x].id == t
                        && self.torrents@[x].peers@.contains(p);
                    assert(self.has_torrent(t));
                }
            }
            assert forall|a: int, b: int| 0 <= a < self.torrents@.len() && 0 <= b < self.torrents@.len() && a != b
                implies self.torrents@[a].id != self.torrents@[b].id && self.torrents@[a].hash@ != self.torrents@[b].hash@ by {
                let a0 = if a < ti { a } else { a + 1 };
                let b0 = if b < ti { b } else { b + 1 };
                assert(self.torrents@[a] == mid.torrents@[a0]);
                assert(self.torrents@[b] == mid.torrents@[b0]);
            }
            assert forall|x: int| 0 <= x < self.torrents@.len() implies (#[trigger] self.torrents@[x]).id < self.tid_cnt
                && self.torrents@[x].peers@.no_duplicates() by {
                let x0 = if x < ti { x } else { x + 1 };
                assert(self.torrents@[x] == mid.torrents@[x0]);
            }
        }
        true
    }
}

impl Control {
    /// `post` is this state after torrent `tid` was set to `paused`: the
    /// torrent list keeps its length, order and everything but that flag,
    /// and nothing else changes.
    pub open spec fn paused_rel(&self, tid: usize, paused: bool, post: &Control) -> bool {
        &&& post.torrents@.len() == self.torrents@.len()
        &&& forall|i: int| 0 <= i < self.torrents@.len() ==> (#[trigger] post.torrents@[i]) == if self.torrents@[i].id
            == tid {
            Torrent { paused, ..self.torrents@[i] }
        } else {
            self.torrents@[i]
        }
        &&& post.peers == self.peers
        &&& post.tid_cnt == self.tid_cnt
        &&& post.throttler == self.throttler
        &&& post.same_registrations(*self)
    }

    /// `post` is this state after torrent `tid` and its peers were removed:
    /// every other torrent and every other ownership stays.
    pub open spec fn removed_rel(&self, tid: usize, post: &Control) -> bool {
        &&& !post.has_torrent(tid)
        &&& forall|t: usize| t != tid ==> (#[trigger] post.has_torrent(t) == self.has_torrent(t))
        &&& forall|p: usize, t: usize| #[trigger] post.index_has(p, t) <==> (self.index_has(p, t) && t != tid)
        &&& post.tid_cnt == self.tid_cnt
        &&& post.throttler.ul_data.same_counters(self.throttler.ul_data)
        &&& post.throttler.dl_data.same_counters(self.throttler.dl_data)
        &&& post.throttler.same_timers(self.throttler)
        &&& post.same_registrations(*self)
    }

    /// Same event registrations and job times as `o`.
    pub open spec fn same_registrations(&self, o: Control) -> bool {
        &&& self.trk_id == o.trk_id
        &&& self.disk_id == o.disk_id
        &&& self.ctrl_id == o.ctrl_id
        &&& self.job_timer == o.job_timer
        &&& self.tracker_update == o.tracker_update
        &&& self.unchoke_update == o.unchoke_update
        &&& self.session_update == o.session_update
    }

    /// Everything but the throttler is as in `o`.
    pub open spec fn same_except_throttler(&self, o: Control) -> bool {
        &&& self.torrents == o.torrents
        &&& self.peers == o.peers
        &&& self.tid_cnt == o.tid_cnt
        &&& self.same_registrations(o)
    }
}

/// What RPC clients see of torrent `t`.
pub open spec fn info_of(t: Torrent) -> TorrentInfo {
    TorrentInfo { id: t.id, paused: t.paused, peers: t.peers@.len() as usize }
}

impl Control {
    /// The torrent ids, in the order the torrents were added.
    pub fn list_torrents(&self) -> (r: Vec<usize>)
        ensures
            r@ == self.torrents@.map_values(|t: Torrent| t.id),
    {
        let mut out: Vec<usize> = Vec::new();
        let mut i: usize = 0;
        while i < self.torrents.len()
            invariant
                i <= self.torrents@.len(),
                out@ == self.torrents@.subrange(0, i as int).map_values(|t: Torrent| t.id),
            decreases self.torrents.len() - i,
        {
            out.push(self.torrents[i].id);
            i = i + 1;
            assert(out@ =~= self.torrents@.subrange(0, i as int).map_values(|t: Torrent| t.id));
        }
        assert(self.torrents@.subrange(0, i as int) =~= self.torrents@);
        out
    }

    /// Pauses or resumes torrent `tid`.  Returns whether it exists.
    pub fn set_paused(&mut self, tid: usize, paused: bool) -> (r: bool)
        requires
            old(self).wf(),
        ensures
            final(self).wf(),
            r == old(self).has_torrent(tid),
            old(self).paused_rel(tid, paused, final(self)),
    {
        let ghost before = *self;
        match self.find_torrent(tid) {
            Some(i) => {
                self.torrents[i].paused = paused;
                proof {
                    assert(self.peers == before.peers);
                    assert forall|p: usize, t: usize| #[trigger] self.torrent_has(p, t) == before.torrent_has(p, t) by {
                        if self.torrent_has(p, t) {
                            let x = choose|x: int| 0 <= x < self.torrents@.len() && #[trigger] self.torrents@[x].id == t
                                && self.torrents@[x].peers@.contains(p);
                            assert(before.torrents@[x].id == t && before.torrents@[x].peers@ == self.torrents@[x].peers@);
                        }
                        if before.torrent_has(p, t) {
                            let x = choose|x: int| 0 <= x < before.torrents@.len() && #[trigger] before.torrents@[x].id == t
                                && before.torrents@[x].peers@.contains(p);
                            assert(self.torrents@[x].id == t && before.torrents@[x].peers@ == self.torrents@[x].peers@);
                        }
                    }
                    assert forall|p: usize, t: usize| #[trigger] self.index_has(p, t) <==> self.torrent_has(p, t) by {
                        assert(before.index_has(p, t) <==> before.torrent_has(p, t));
                        assert(self.index_has(p, t) == before.index_has(p, t));
                    }
                    assert forall|j: int| 0 <= j < before.torrents@.len() && j != i implies before.torrents@[j].id != tid by {}
                }
                true
            },
            None => false,
        }
    }

    /// What torrent `tid` reports to RPC clients.
    pub fn torrent_info(&self, tid: usize) -> (r: Option<TorrentInfo>)
        ensures
            r is None <==> !self.has_torrent(tid),
            r matches Some(info) ==> exists|i: int| 0 <= i < self.torrents@.len() && #[trigger] self.torrents@[i].id == tid
                && info == info_of(self.torrents@[i]),
    {
        match self.find_torrent(tid) {
            Some(i) => Some(TorrentInfo {
                id: self.torrents[i].id,
                paused: self.torrents[i].paused,
                peers: self.torrents[i].peers.len(),
            }),
            None => None,
        }
    }

    /// Records a new peer `pid` for the torrent with infohash `hash`.
    /// Returns the torrent's id, or nothing (and no change) when no torrent
    /// has that hash or the peer is already known.
    pub fn add_peer_by_hash(&mut self, hash: &Vec<u8>, pid: usize) -> (r: Option<usize>)
        requires
            old(self).wf(),
        ensures
            final(self).wf(),
            r is Some <==> (!old(self).has_peer(pid) && exists|i: int| 0 <= i < old(self).torrents@.len()
                && (#[trigger] old(self).torrents@[i]).hash@ == hash@),
            r matches Some(tid) ==> (exists|i: int| 0 <= i < old(self).torrents@.len() && #[trigger] old(self).torrents@[i].id
                == tid && old(self).torrents@[i].hash@ == hash@) && forall|p: usize, t: usize| #[trigger] final(self).index_has(
                p,
                t,
            ) <==> (old(self).index_has(p, t) || (p == pid && t == tid)),
            r is None ==> *final(self) == *old(self),
    {
        let tid = match self.find_by_hash(hash) {
            Some(tid) => tid,
            None => {
                return None;
            },
        };
        if self.peer_owner(pid).is_some() {
            return None;
        }
        self.add_peer(tid, pid);
        Some(tid)
    }

    /// Answers one RPC request.
    pub fn handle_rpc(&mut self, req: RpcRequest) -> (r: RpcResponse)
        requires
            old(self).wf(),
        ensures
            final(self).wf(),
            match req {
                RpcRequest::ListTorrents => *final(self) == *old(self) && (r matches RpcResponse::Torrents(ids)
                    && ids@ == old(self).torrents@.map_values(|t: Torrent| t.id)),
                RpcRequest::TorrentInfo(tid) => *final(self) == *old(self) && if old(self).has_torrent(tid) {
                    (r matches RpcResponse::TorrentInfo(info) && exists|i: int| 0 <= i < old(self).torrents@.len()
                        && #[trigger] old(self).torrents@[i].id == tid && info == info_of(old(self).torrents@[i]))
                } else {
                    r == RpcResponse::Failed(RpcError::TorrentNotFound)
                },
                RpcRequest::AddTorrent(hash) => exists|res: Result<usize, RpcError>| old(self).added_rel(hash@, final(self), res)
                    && r == match res {
                        Ok(_) => RpcResponse::Ack,
                        Err(e) => RpcResponse::Failed(e),
                    },
                RpcRequest::PauseTorrent(tid) => r == (if old(self).has_torrent(tid) {
                    RpcResponse::Ack
                } else {
                    RpcResponse::Failed(RpcError::TorrentNotFound)
                }) && old(self).paused_rel(tid, true, final(self)),
                RpcRequest::ResumeTorrent(tid) => r == (if old(self).has_torrent(tid) {
                    RpcResponse::Ack
                } else {
                    RpcResponse::Failed(RpcError::TorrentNotFound)
                }) && old(self).paused_rel(tid, false, final(self)),
                RpcRequest::RemoveTorrent(tid) => r == (if old(self).has_torrent(tid) {
                    RpcResponse::Ack
                } else {
                    RpcResponse::Failed(RpcError::TorrentNotFound)
                }) && old(self).removed_rel(tid, final(self)),
                RpcRequest::ThrottleUpload(rate) => r == RpcResponse::Ack && final(self).throttler.ul_data == (
                ThrottleData { rate, ..old(self).throttler.ul_data }) && final(self).throttler.dl_data
                    == old(self).throttler.dl_data && final(self).throttler.same_timers(old(self).throttler)
                    && final(self).same_except_throttler(*old(self)),
                RpcRequest::ThrottleDownload(rate) => r == RpcResponse::Ack && final(self).throttler.dl_data == (
                ThrottleData { rate, ..old(self).throttler.dl_data }) && final(self).throttler.ul_data
                    == old(self).throttler.ul_data && final(self).throttler.same_timers(old(self).throttler)
                    && final(self).same_except_throttler(*old(self)),
                RpcRequest::Shutdown => r == RpcResponse::Ack && *final(self) == *old(self),
            },
    {
        match req {
            RpcRequest::ListTorrents => RpcResponse::Torrents(self.list_torrents()),
            RpcRequest::TorrentInfo(tid) => match self.torrent_info(tid) {
                Some(info) => RpcResponse::TorrentInfo(info),
                None => RpcResponse::Failed(RpcError::TorrentNotFound),
            },
            RpcRequest::AddTorrent(hash) => match self.add_torrent(hash) {
                Ok(_) => RpcResponse::Ack,
                Err(e) => RpcResponse::Failed(e),
            },
            RpcRequest::PauseTorrent(tid) => if self.set_paused(tid, true) {
                RpcResponse::Ack
            } else {
                RpcResponse::Failed(RpcError::TorrentNotFound)
            },
            RpcRequest::ResumeTorrent(tid) => if self.set_paused(tid, false) {
                RpcResponse::Ack
            } else {
                RpcResponse::Failed(RpcError::TorrentNotFound)
            },
            RpcRequest::RemoveTorrent(tid) => if self.remove_torrent(tid) {
                RpcResponse::Ack
            } else {
                RpcResponse::Failed(RpcError::TorrentNotFound)
            },
            RpcRequest::ThrottleUpload(rate) => {
                let ghost before = *self;
                self.throttler.set_ul_rate(rate);
                proof {
                    lemma_wf_same_ownership(before, *self);
                }
                RpcResponse::Ack
            },
            RpcRequest::ThrottleDownload(rate) => {
                let ghost before = *self;
                self.throttler.set_dl_rate(rate);
                proof {
                    lemma_wf_same_ownership(before, *self);
                }
                RpcResponse::Ack
            },
            RpcRequest::Shutdown => RpcResponse::Ack,
        }
    }
}

/// Byte-wise equality.
pub fn bytes_eq(a: &Vec<u8>, b: &Vec<u8>) -> (r: bool)
    ensures
        r == (a@ == b@),
{
    if a.len() != b.len() {
        return false;
    }
    let mut i: usize = 0;
    while i < a.len()
        invariant
            a@.len() == b@.len(),
            i <= a@.len(),
            forall|j: int| 0 <= j < i ==> a@[j] == b@[j],
        decreases a.len() - i,
    {
        if a[i] != b[i] {
            return false;
        }
        i = i + 1;
    }
    assert(a@ =~= b@);
    true
}

} // verus!
