//! Per-connection protocol state machine.
//!
//! A `Peer` holds what the wire protocol tracks of one remote peer.  What it
//! sends is appended to its outbound queue, in order, for the connection to
//! write; what it reports to the tracker or to the RPC surface is appended
//! to its notices.
use vstd::prelude::*;
use crate::bitfield::{Bitfield, bytes_for};
use crate::message::Message;

verus! {

/// Index of the reserved handshake byte that flags the DHT extension.
pub const DHT_EXT_BYTE: usize = 7;

/// Mask of the DHT extension flag within that byte.
pub const DHT_EXT_MASK: u8 = 0x01;

/// Most block requests in flight to one peer.
pub const MAX_QUEUED: u16 = 5;

#[derive(Clone, Copy, Debug, PartialEq, Eq, Structural)]
pub struct Status {
    pub choked: bool,
    pub interested: bool,
}

impl Status {
    /// Both sides start choked and not interested.
    pub fn new() -> (r: Status)
        ensures
            r == (Status { choked: true, interested: false }),
    {
        Status { choked: true, interested: false }
    }
}

/// Something a peer reports outside its connection.
#[derive(Clone, Copy, Debug, PartialEq, Eq, Structural)]
pub enum Notice {
    /// The peer has completed its handshake and is known to RPC clients.
    Extant { peer: usize },
    /// The peer, once announced, is gone.
    Removed { peer: usize },
    /// The peer's address with this port is a DHT node.
    DhtNode { peer: usize, port: u16 },
}

/// Why a peer was dropped for breaking the protocol.
#[derive(Clone, Copy, Debug, PartialEq, Eq, Structural)]
pub enum ProtocolError {
    /// It requested a block while we choke it.
    RequestWhileChoked,
    /// It announced a piece index past the torrent's pieces.
    HaveOutOfRange,
}

pub open spec fn sat_add(a: int, b: int, max: int) -> int {
    if a + b > max {
        max
    } else {
        a + b
    }
}

pub open spec fn opt_view(o: Option<Vec<u8>>) -> Option<Seq<u8>> {
    match o {
        Some(v) => Some(v@),
        None => None,
    }
}

/// `m` is an outbound `Piece` for block (`index`, `begin`).
pub open spec fn is_piece_at(m: Message, index: u32, begin: u32) -> bool {
    match m {
        Message::Piece { index: i, begin: b, .. } => i == index && b == begin,
        _ => false,
    }
}

/// Whether the handshake reserved bytes `rsv` flag the DHT extension.
pub open spec fn flags_dht(rsv: Seq<u8>) -> bool {
    rsv.len() > DHT_EXT_BYTE && rsv[DHT_EXT_BYTE as int] & DHT_EXT_MASK != 0
}

#[derive(Debug)]
pub struct Peer {
    pub id: usize,
    pub tid: usize,
    pub pieces: Bitfield,
    pub remote_status: Status,
    pub local_status: Status,
    pub queued: u16,
    pub downloaded: u32,
    pub uploaded: u32,
    pub downloaded_bytes: u64,
    pub uploaded_bytes: u64,
    /// Time of the last rate flush, in milliseconds.
    pub last_flush: u64,
    pub t_hash: Vec<u8>,
    pub cid: Option<Vec<u8>>,
    pub rsv: Option<Vec<u8>>,
    /// Our DHT port, announced to peers that speak the extension.
    pub dht_port: u16,
    /// Messages handed to the connection, oldest first.
    pub outbox: Vec<Message>,
    pub notices: Vec<Notice>,
}

impl Peer {
    /// The availability bitfield is well formed and at most `MAX_QUEUED`
    /// requests are in flight.
    pub open spec fn wf(&self) -> bool {
        self.pieces.wf() && self.queued <= MAX_QUEUED
    }

    /// `post` is this peer after it sent `msg`: a block counts towards the
    /// upload statistics, and `msg` joins the outbound queue.
    pub open spec fn sent(&self, msg: Message, post: &Peer) -> bool {
        let (n, len) = match msg {
            Message::Piece { length, .. } => (1int, length as int),
            Message::SharedPiece { length, .. } => (1int, length as int),
            _ => (0int, 0int),
        };
        &&& post.outbox@ == self.outbox@.push(msg)
        &&& post.uploaded == sat_add(self.uploaded as int, n, u32::MAX as int)
        &&& post.uploaded_bytes == sat_add(self.uploaded_bytes as int, len, u64::MAX as int)
        &&& *post == (Peer {
            outbox: post.outbox,
            uploaded: post.uploaded,
            uploaded_bytes: post.uploaded_bytes,
            ..*self
        })
    }

    /// A peer with the given statistics, `queued` requests in flight and
    /// availability `pieces`.
    pub fn test(id: usize, uploaded: u32, downloaded: u32, queued: u16, pieces: Bitfield) -> (r: Peer)
        requires
            pieces.wf(),
            queued <= MAX_QUEUED,
        ensures
            r.wf(),
            r.id == id,
            r.tid == 0,
            r.uploaded == uploaded,
            r.downloaded == downloaded,
            r.queued == queued,
            r.pieces == pieces,
            r.remote_status == Status::new_spec(),
            r.local_status == Status::new_spec(),
            r.uploaded_bytes == 0,
            r.downloaded_bytes == 0,
            r.last_flush == 0,
            r.cid is None,
            r.rsv is None,
            r.outbox@.len() == 0,
            r.notices@.len() == 0,
    {
        Peer {
            id,
            tid: 0,
            pieces,
            remote_status: Status::new(),
            local_status: Status::new(),
            queued,
            downloaded,
            uploaded,
            downloaded_bytes: 0,
            uploaded_bytes: 0,
            last_flush: 0,
            t_hash: Vec::new(),
            cid: None,
            rsv: None,
            dht_port: 0,
            outbox: Vec::new(),
            notices: Vec::new(),
        }
    }

    /// A fresh peer with availability `pieces`.
    pub fn test_from_pieces(id: usize, pieces: Bitfield) -> (r: Peer)
        requires
            pieces.wf(),
        ensures
            r.wf(),
            r.id == id,
            r.pieces == pieces,
            r.queued == 0,
            r.uploaded == 0,
            r.downloaded == 0,
            r.local_status == Status::new_spec(),
            r.remote_status == Status::new_spec(),
            r.cid is None,
            r.outbox@.len() == 0,
            r.notices@.len() == 0,
    {
        Peer::test(id, 0, 0, 0, pieces)
    }

    /// A fresh peer of four pieces with the given statistics.
    pub fn test_from_stats(id: usize, ul: u32, dl: u32) -> (r: Peer)
        ensures
            r.wf(),
            r.id == id,
            r.uploaded == ul,
            r.downloaded == dl,
            r.queued == 0,
            r.pieces@.len() == 4,
            r.outbox@.len() == 0,
            r.notices@.len() == 0,
    {
        Peer::test(id, ul, dl, 0, Bitfield::new(4))
    }

    /// A new connection to a peer of torrent `tid`: its availability starts
    /// empty, sized like ours, our handshake and bitfield are queued, and
    /// the rate period starts at `now_ms`.
    /// When the peer's handshake is already known (`cid`), it is announced.
    pub fn new(
        id: usize,
        tid: usize,
        t_hash: Vec<u8>,
        local_id: Vec<u8>,
        local_pieces: &Bitfield,
        cid: Option<Vec<u8>>,
        rsv: Option<Vec<u8>>,
        dht_port: u16,
        now_ms: u64,
    ) -> (r: Peer)
        requires
            local_pieces.wf(),
        ensures
            r.wf(),
            r.id == id,
            r.tid == tid,
            r.t_hash@ == t_hash@,
            r.pieces@ == Seq::new(local_pieces@.len(), |i: int| false),
            r.remote_status == Status::new_spec(),
            r.local_status == Status::new_spec(),
            r.queued == 0,
            r.uploaded == 0 && r.downloaded == 0,
            r.uploaded_bytes == 0 && r.downloaded_bytes == 0,
            r.last_flush == now_ms,
            opt_view(r.cid) == opt_view(cid),
            opt_view(r.rsv) == opt_view(rsv),
            r.dht_port == dht_port,
            r.outbox@.len() == 2,
            r.outbox@[0] matches Message::Handshake { rsv: hr, hash: hh, id: hi }
                && hh@ == t_hash@ && hi@ == local_id@ && flags_dht(hr@) && hr@.len() == 8,
            r.outbox@[1] matches Message::Bitfield(bf) && bf@ == local_pieces@ && bf.wf(),
            r.notices@ == if cid is Some {
                seq![Notice::Extant { peer: id }]
            } else {
                Seq::<Notice>::empty()
            },
    {
        let hash_copy = t_hash.clone();
        let pieces = Bitfield::new(local_pieces.len());
        let mut p = Peer {
            id,
            tid,
            pieces,
            remote_status: Status::new(),
            local_status: Status::new(),
            queued: 0,
            downloaded: 0,
            uploaded: 0,
            downloaded_bytes: 0,
            uploaded_bytes: 0,
            last_flush: now_ms,
            t_hash,
            cid,
            rsv,
            dht_port,
            outbox: Vec::new(),
            notices: Vec::new(),
        };
        let local_rsv: Vec<u8> = vec![0u8, 0u8, 0u8, 0u8, 0u8, 0u8, 0u8, DHT_EXT_MASK];
        proof {
            assert(local_rsv@[DHT_EXT_BYTE as int] == DHT_EXT_MASK);
            assert(DHT_EXT_MASK & DHT_EXT_MASK != 0) by (bit_vector);
        }
        p.send_message(Message::Handshake { rsv: local_rsv, hash: hash_copy, id: local_id });
        p.send_message(Message::Bitfield(local_pieces.duplicate()));
        p.send_rpc_info();
        p
    }

    /// Whether the peer's handshake has arrived.
    pub fn ready(&self) -> (r: bool)
        ensures
            r == self.cid is Some,
    {
        self.cid.is_some()
    }

    pub fn pieces(&self) -> (r: &Bitfield)
        ensures
            *r == self.pieces,
    {
        &self.pieces
    }

    pub fn pieces_mut(&mut self) -> (r: &mut Bitfield)
        ensures
            *r == old(self).pieces,
            *final(self) == (Peer { pieces: *final(r), ..*old(self) }),
    {
        &mut self.pieces
    }

    pub fn id(&self) -> (r: usize)
        ensures
            r == self.id,
    {
        self.id
    }

    /// Hands back and resets the (uploaded, downloaded) block counts.
    pub fn flush(&mut self) -> (r: (u32, u32))
        ensures
            r == (old(self).uploaded, old(self).downloaded),
            *final(self) == (Peer { uploaded: 0, downloaded: 0, ..*old(self) }),
    {
        let r = (self.uploaded, self.downloaded);
        self.uploaded = 0;
        self.downloaded = 0;
        r
    }

    pub fn remote_status(&self) -> (r: &Status)
        ensures
            *r == self.remote_status,
    {
        &self.remote_status
    }

    /// (upload, download) bytes per second since the last flush, at time
    /// `now_ms`; resets the byte counters and starts a new period.  An
    /// elapsed time under one millisecond counts as one; a rate past
    /// `u64::MAX` is reported as `u64::MAX`.
    pub fn get_tx_rates(&mut self, now_ms: u64) -> (r: (u64, u64))
        ensures
            r == (
                rate_of(old(self).uploaded_bytes as int, elapsed(old(self).last_flush as int, now_ms as int)) as u64,
                rate_of(old(self).downloaded_bytes as int, elapsed(old(self).last_flush as int, now_ms as int)) as u64,
            ),
            *final(self) == (Peer { uploaded_bytes: 0, downloaded_bytes: 0, last_flush: now_ms, ..*old(self) }),
    {
        let dur: u64 = if now_ms > self.last_flush { now_ms - self.last_flush } else { 1 };
        let ul = rate(self.uploaded_bytes, dur);
        let dl = rate(self.downloaded_bytes, dur);
        self.uploaded_bytes = 0;
        self.downloaded_bytes = 0;
        self.last_flush = now_ms;
        (ul, dl)
    }

    /// Whether another block may be requested: the peer does not choke us
    /// and fewer than `MAX_QUEUED` requests are in flight.
    pub fn can_queue_req(&self) -> (r: bool)
        ensures
            r == self.can_queue_spec(),
    {
        !self.remote_status.choked && self.queued < MAX_QUEUED
    }

    pub open spec fn can_queue_spec(&self) -> bool {
        !self.remote_status.choked && self.queued < MAX_QUEUED
    }
}

impl Peer {
    /// `post` is this peer after it received `msg` with result `r`.
    pub open spec fn handled(&self, msg: Message, post: &Peer, r: Result<(), ProtocolError>) -> bool {
        match msg {
            Message::Handshake { rsv, id, .. } => {
                &&& r is Ok
                &&& post.outbox@ == if flags_dht(rsv@) {
                    self.outbox@.push(Message::Port(self.dht_port))
                } else {
                    self.outbox@
                }
                &&& opt_view(post.rsv) == Some(rsv@)
                &&& opt_view(post.cid) == Some(id@)
                &&& post.notices@ == self.notices@.push(Notice::Extant { peer: self.id })
                &&& *post == (Peer {
                    outbox: post.outbox,
                    rsv: post.rsv,
                    cid: post.cid,
                    notices: post.notices,
                    ..*self
                })
            },
            Message::Piece { length, .. } | Message::SharedPiece { length, .. } => {
                &&& r is Ok
                &&& *post == (Peer {
                    downloaded_bytes: sat_add(self.downloaded_bytes as int, length as int, u64::MAX as int) as u64,
                    downloaded: sat_add(self.downloaded as int, 1, u32::MAX as int) as u32,
                    queued: if self.queued > 0 {
                        (self.queued - 1) as u16
                    } else {
                        0
                    },
                    ..*self
                })
            },
            Message::Request { .. } => {
                &&& r == if self.local_status.choked {
                    Err(ProtocolError::RequestWhileChoked)
                } else {
                    Ok(())
                }
                &&& *post == *self
            },
            Message::Choke => r is Ok && *post == (Peer {
                remote_status: Status { choked: true, ..self.remote_status },
                ..*self
            }),
            Message::Unchoke => r is Ok && *post == (Peer {
                remote_status: Status { choked: false, ..self.remote_status },
                ..*self
            }),
            Message::Interested => r is Ok && *post == (Peer {
                remote_status: Status { interested: true, ..self.remote_status },
                ..*self
            }),
            Message::Uninterested => r is Ok && *post == (Peer {
                remote_status: Status { interested: false, ..self.remote_status },
                ..*self
            }),
            Message::Have(idx) => if idx >= self.pieces@.len() {
                r == Err::<(), ProtocolError>(ProtocolError::HaveOutOfRange) && *post == *self
            } else {
                &&& r is Ok
                &&& post.pieces@ == self.pieces@.update(idx as int, true)
                &&& *post == (Peer { pieces: post.pieces, ..*self })
            },
            Message::Bitfield(bf) => {
                &&& r is Ok
                &&& post.pieces@.len() == self.pieces@.len()
                &&& forall|i: int| 0 <= i < self.pieces@.len() ==> #[trigger] post.pieces@[i] == (i < bf@.len()
                    && bf@[i])
                &&& *post == (Peer { pieces: post.pieces, ..*self })
            },
            Message::KeepAlive => r is Ok && self.sent(Message::KeepAlive, post),
            Message::Cancel { index, begin, .. } => {
                &&& r is Ok
                &&& post.outbox@ == self.outbox@.filter(|m: Message| !is_piece_at(m, index, begin))
                &&& *post == (Peer { outbox: post.outbox, ..*self })
            },
            Message::Port(port) => {
                &&& r is Ok
                &&& post.notices@ == self.notices@.push(Notice::DhtNode { peer: self.id, port })
                &&& *post == (Peer { notices: post.notices, ..*self })
            },
        }
    }

    /// Applies a message received from the peer.  A request while we choke
    /// the peer, or a `Have` past our piece count, is a protocol error and
    /// changes nothing.
    pub fn handle_msg(&mut self, msg: Message) -> (r: Result<(), ProtocolError>)
        requires
            old(self).wf(),
            msg.wf(),
        ensures
            final(self).wf(),
            old(self).handled(msg, final(self), r),
    {
        match msg {
            Message::Handshake { rsv, id, .. } => {
                if rsv.len() > DHT_EXT_BYTE && rsv[DHT_EXT_BYTE] & DHT_EXT_MASK != 0 {
                    let port = self.dht_port;
                    self.send_message(Message::Port(port));
                }
                self.rsv = Some(rsv);
                self.cid = Some(id);
                self.send_rpc_info();
            },
            Message::Piece { length, .. } | Message::SharedPiece { length, .. } => {
                self.downloaded_bytes = self.downloaded_bytes.saturating_add(length as u64);
                self.downloaded = self.downloaded.saturating_add(1);
                self.queued = self.queued.saturating_sub(1);
            },
            Message::Request { .. } => {
                if self.local_status.choked {
                    return Err(ProtocolError::RequestWhileChoked);
                }
            },
            Message::Choke => {
                self.remote_status.choked = true;
            },
            Message::Unchoke => {
                self.remote_status.choked = false;
            },
            Message::Interested => {
                self.remote_status.interested = true;
            },
            Message::Uninterested => {
                self.remote_status.interested = false;
            },
            Message::Have(idx) => {
                if idx as u64 >= self.pieces.len() {
                    return Err(ProtocolError::HaveOutOfRange);
                }
                self.pieces.set_bit(idx as u64);
            },
            Message::Bitfield(pieces) => {
                let mut pieces = pieces;
                let n = self.pieces.len();
                pieces.cap(n);
                self.pieces = pieces;
            },
            Message::KeepAlive => {
                self.send_message(Message::KeepAlive);
            },
            Message::Cancel { index, begin, .. } => {
                self.cancel_queued(index, begin);
            },
            Message::Port(p) => {
                let id = self.id;
                self.notices.push(Notice::DhtNode { peer: id, port: p });
            },
        }
        Ok(())
    }

    /// Drops from the outbound queue every `Piece` for block (`index`,
    /// `begin`) not yet written, whatever its length.
    fn cancel_queued(&mut self, index: u32, begin: u32)
        ensures
            final(self).outbox@ == old(self).outbox@.filter(|m: Message| !is_piece_at(m, index, begin)),
            *final(self) == (Peer { outbox: final(self).outbox, ..*old(self) }),
    {
        let mut queue: Vec<Message> = Vec::new();
        std::mem::swap(&mut queue, &mut self.outbox);
        let ghost q0 = queue@;
        let ghost mut done: Seq<Message> = Seq::empty();
        let mut kept: Vec<Message> = Vec::new();
        proof {
            reveal(Seq::filter);
            assert(done + queue@ =~= q0);
        }
        while queue.len() > 0
            invariant
                q0 == done + queue@,
                kept@ == done.filter(|m: Message| !is_piece_at(m, index, begin)),
            decreases queue.len(),
        {
            let ghost d0 = done;
            let x = queue.remove(0);
            let matched = match &x {
                Message::Piece { index: i, begin: b, .. } => *i == index && *b == begin,
                _ => false,
            };
            proof {
                done = d0.push(x);
                assert(done.drop_last() =~= d0);
                reveal(Seq::filter);
                assert(q0 =~= done + queue@);
            }
            proof {
                assert(matched == is_piece_at(x, index, begin));
                assert(done.last() == x);
                assert(done.filter(|m: Message| !is_piece_at(m, index, begin)) == if !is_piece_at(x, index, begin) {
                    d0.filter(|m: Message| !is_piece_at(m, index, begin)).push(x)
                } else {
                    d0.filter(|m: Message| !is_piece_at(m, index, begin))
                });
            }
            if !matched {
                kept.push(x);
            }
        }
        proof {
            assert(done =~= q0);
        }
        self.outbox = kept;
    }

    /// Requests a block and counts it as in flight, when the peer may be
    /// asked (see `can_queue_req`); otherwise does nothing, so that at most
    /// `MAX_QUEUED` requests are ever in flight.
    pub fn request_piece(&mut self, idx: u32, offset: u32, len: u32)
        requires
            old(self).wf(),
        ensures
            final(self).wf(),
            if old(self).can_queue_spec() {
                (Peer { queued: (old(self).queued + 1) as u16, ..*old(self) }).sent(
                    Message::Request { index: idx, begin: offset, length: len },
                    final(self),
                )
            } else {
                *final(self) == *old(self)
            },
    {
        if self.can_queue_req() {
            let m = Message::request(idx, offset, len);
            self.queued = self.queued + 1;
            self.send_message(m);
        }
    }

    pub fn choke(&mut self)
        ensures
            if old(self).local_status.choked {
                *final(self) == *old(self)
            } else {
                (Peer { local_status: Status { choked: true, ..old(self).local_status }, ..*old(self) }).sent(
                    Message::Choke,
                    final(self),
                )
            },
    {
        if !self.local_status.choked {
            self.local_status.choked = true;
            self.send_message(Message::Choke);
        }
    }

    pub fn unchoke(&mut self)
        ensures
            if !old(self).local_status.choked {
                *final(self) == *old(self)
            } else {
                (Peer { local_status: Status { choked: false, ..old(self).local_status }, ..*old(self) }).sent(
                    Message::Unchoke,
                    final(self),
                )
            },
    {
        if self.local_status.choked {
            self.local_status.choked = false;
            self.send_message(Message::Unchoke);
        }
    }

    pub fn interested(&mut self)
        ensures
            if old(self).local_status.interested {
                *final(self) == *old(self)
            } else {
                (Peer { local_status: Status { interested: true, ..old(self).local_status }, ..*old(self) }).sent(
                    Message::Interested,
                    final(self),
                )
            },
    {
        if !self.local_status.interested {
            self.local_status.interested = true;
            self.send_message(Message::Interested);
        }
    }

    pub fn uninterested(&mut self)
        ensures
            if !old(self).local_status.interested {
                *final(self) == *old(self)
            } else {
                (Peer { local_status: Status { interested: false, ..old(self).local_status }, ..*old(self) }).sent(
                    Message::Uninterested,
                    final(self),
                )
            },
    {
        if self.local_status.interested {
            self.local_status.interested = false;
            self.send_message(Message::Uninterested);
        }
    }

    /// Queues `msg` for the connection; a block counts as uploaded.
    pub fn send_message(&mut self, msg: Message)
        ensures
            old(self).sent(msg, final(self)),
    {
        match &msg {
            Message::SharedPiece { length, .. } | Message::Piece { length, .. } => {
                self.uploaded = self.uploaded.saturating_add(1);
                self.uploaded_bytes = self.uploaded_bytes.saturating_add(*length as u64);
            },
            _ => {},
        }
        self.outbox.push(msg);
    }

    /// Announces the peer to RPC clients once its handshake is known.
    fn send_rpc_info(&mut self)
        ensures
            final(self).notices@ == if old(self).cid is Some {
                old(self).notices@.push(Notice::Extant { peer: old(self).id })
            } else {
                old(self).notices@
            },
            *final(self) == (Peer { notices: final(self).notices, ..*old(self) }),
    {
        if self.cid.is_some() {
            let id = self.id;
            self.notices.push(Notice::Extant { peer: id });
        }
    }

    /// Tells RPC clients that an announced peer is gone.
    pub fn send_rpc_removal(&mut self)
        ensures
            final(self).notices@ == if old(self).cid is Some {
                old(self).notices@.push(Notice::Removed { peer: old(self).id })
            } else {
                old(self).notices@
            },
            *final(self) == (Peer { notices: final(self).notices, ..*old(self) }),
    {
        if self.ready() {
            let id = self.id;
            self.notices.push(Notice::Removed { peer: id });
        }
    }

    /// Hands the queued outbound messages to the connection.
    pub fn take_outbox(&mut self) -> (r: Vec<Message>)
        ensures
            r@ == old(self).outbox@,
            final(self).outbox@.len() == 0,
            *final(self) == (Peer { outbox: final(self).outbox, ..*old(self) }),
    {
        let mut out: Vec<Message> = Vec::new();
        std::mem::swap(&mut out, &mut self.outbox);
        out
    }

    /// Hands over the pending notices.
    pub fn take_notices(&mut self) -> (r: Vec<Notice>)
        ensures
            r@ == old(self).notices@,
            final(self).notices@.len() == 0,
            *final(self) == (Peer { notices: final(self).notices, ..*old(self) }),
    {
        let mut out: Vec<Notice> = Vec::new();
        std::mem::swap(&mut out, &mut self.notices);
        out
    }

    /// Ends the peer: its pending notices, with a removal notice if it had
    /// been announced.
    pub fn close(self) -> (r: Vec<Notice>)
        ensures
            r@ == if self.cid is Some {
                self.notices@.push(Notice::Removed { peer: self.id })
            } else {
                self.notices@
            },
    {
        let mut p = self;
        p.send_rpc_removal();
        p.notices
    }
}

/// Milliseconds from `from` to `to`, at least one.
pub open spec fn elapsed(from: int, to: int) -> int {
    if to > from {
        to - from
    } else {
        1
    }
}

/// `bytes` over `ms` milliseconds, in bytes per second.
pub open spec fn rate_of(bytes: int, ms: int) -> int {
    if 1000 * bytes > u64::MAX {
        u64::MAX as int
    } else {
        (1000 * bytes) / ms
    }
}

fn rate(bytes: u64, ms: u64) -> (r: u64)
    requires
        ms > 0,
    ensures
        r == rate_of(bytes as int, ms as int),
{
    if bytes > u64::MAX / 1000 {
        u64::MAX
    } else {
        (1000 * bytes) / ms
    }
}

impl Status {
    pub open spec fn new_spec() -> Status {
        Status { choked: true, interested: false }
    }
}

} // verus!
