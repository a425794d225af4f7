//! Sequential piece picker.
//!
//! Entries are kept with all completed pieces first; `piece_idx` is the
//! frontier before which every entry is complete, and picking scans only
//! from there.
use vstd::prelude::*;
use crate::bitfield::Bitfield;
use crate::message::Message;
use crate::peer::Peer;

verus! {

#[derive(Clone, Copy, Debug, PartialEq, Eq, Structural)]
pub enum PieceStatus {
    Incomplete,
    Complete,
}

#[derive(Clone, Copy, Debug, PartialEq, Eq, Structural)]
pub struct Piece {
    pub pos: u32,
    pub status: PieceStatus,
}

#[derive(Debug)]
pub struct Picker {
    piece_idx: usize,
    pieces: Vec<Piece>,
}

/// Whether the availability `bits` holds piece `p`.
pub open spec fn holds(bits: Seq<bool>, p: u32) -> bool {
    (p as int) < bits.len() && bits[p as int]
}

/// Some entry of `e` is for piece `p`.
pub open spec fn has_entry(e: Seq<Piece>, p: int) -> bool {
    exists|j: int| 0 <= j < e.len() && #[trigger] e[j].pos == p
}

/// Complete entries for the set bits among the first `p` of `bits`, in
/// order.
pub open spec fn owned_entries(bits: Seq<bool>, p: int) -> Seq<Piece>
    decreases p,
{
    if p <= 0 {
        Seq::empty()
    } else if bits[p - 1] {
        owned_entries(bits, p - 1).push(Piece { pos: (p - 1) as u32, status: PieceStatus::Complete })
    } else {
        owned_entries(bits, p - 1)
    }
}

/// Incomplete entries for the clear bits among the first `p` of `bits`, in
/// order.
pub open spec fn missing_entries(bits: Seq<bool>, p: int) -> Seq<Piece>
    decreases p,
{
    if p <= 0 {
        Seq::empty()
    } else if !bits[p - 1] {
        missing_entries(bits, p - 1).push(Piece { pos: (p - 1) as u32, status: PieceStatus::Incomplete })
    } else {
        missing_entries(bits, p - 1)
    }
}

/// Number of set bits among the first `p` of `s`.
pub open spec fn ones(s: Seq<bool>, p: int) -> int
    decreases p,
{
    if p <= 0 {
        0
    } else {
        ones(s, p - 1) + if s[p - 1] {
            1int
        } else {
            0int
        }
    }
}

impl Picker {
    /// The entries, completed ones first.
    pub closed spec fn entries(&self) -> Seq<Piece> {
        self.pieces@
    }

    /// Index of the first entry that may be incomplete.
    pub closed spec fn frontier(&self) -> int {
        self.piece_idx as int
    }

    /// Each piece `0..n` has exactly one entry, and every entry before the
    /// frontier is complete.
    pub open spec fn wf(&self) -> bool {
        let e = self.entries();
        &&& 0 <= self.frontier() <= e.len()
        &&& forall|j: int| 0 <= j < self.frontier() ==> (#[trigger] e[j]).status == PieceStatus::Complete
        &&& forall|j: int| 0 <= j < e.len() ==> (#[trigger] e[j]).pos < e.len()
        &&& forall|a: int, b: int| 0 <= a < e.len() && 0 <= b < e.len() && a != b ==> e[a].pos != e[b].pos
        &&& forall|p: int| 0 <= p < e.len() ==> #[trigger] has_entry(e, p)
    }

    /// Piece `i` has a complete entry.
    pub open spec fn piece_complete(&self, i: u32) -> bool {
        exists|j: int| 0 <= j < self.entries().len() && #[trigger] self.entries()[j].pos == i
            && self.entries()[j].status == PieceStatus::Complete
    }

    /// Entry `j` is one that a peer with availability `bits` may be asked for.
    pub open spec fn wanted(&self, bits: Seq<bool>, j: int) -> bool {
        &&& self.frontier() <= j < self.entries().len()
        &&& self.entries()[j].status == PieceStatus::Incomplete
        &&& holds(bits, self.entries()[j].pos)
    }

    /// What `pick` returns for a peer with availability `bits`: the first
    /// wanted entry, if any.
    pub open spec fn pick_spec(&self, bits: Seq<bool>, r: Option<u32>) -> bool {
        match r {
            Some(p) => exists|j: int|
                self.wanted(bits, j) && #[trigger] self.entries()[j].pos == p
                    && forall|k: int| self.frontier() <= k < j ==> !self.wanted(bits, k),
            None => forall|j: int| !self.wanted(bits, j),
        }
    }

    /// `post` is this picker after `completed(i)`: the tail entry for `i`
    /// becomes complete, and the frontier moves past the completed entries
    /// that follow it.
    pub open spec fn completed_rel(&self, i: u32, post: &Picker) -> bool {
        let e = self.entries();
        let f = post.frontier();
        &&& post.entries().len() == e.len()
        &&& forall|j: int| 0 <= j < e.len() ==> #[trigger] post.entries()[j] == if self.frontier() <= j
            && e[j].pos == i {
            Piece { pos: i, status: PieceStatus::Complete }
        } else {
            e[j]
        }
        &&& self.frontier() <= f <= e.len()
        &&& forall|j: int| self.frontier() <= j < f ==> (#[trigger] post.entries()[j]).status
            == PieceStatus::Complete
        &&& f == e.len() || post.entries()[f].status == PieceStatus::Incomplete
    }

    /// `post` is this picker after `incomplete(i)`: the entry for `i` becomes
    /// incomplete, and the frontier moves back to it if it lay before.
    pub open spec fn incomplete_rel(&self, i: u32, post: &Picker) -> bool {
        let e = self.entries();
        &&& post.entries().len() == e.len()
        &&& forall|j: int| 0 <= j < e.len() ==> #[trigger] post.entries()[j] == if e[j].pos == i {
            Piece { pos: i, status: PieceStatus::Incomplete }
        } else {
            e[j]
        }
        &&& forall|j: int| 0 <= j < e.len() && #[trigger] e[j].pos == i ==> post.frontier() == if j
            < self.frontier() {
            j
        } else {
            self.frontier()
        }
        &&& !has_entry(e, i as int) ==> post.frontier() == self.frontier()
    }

    /// Owned pieces become complete entries, then the others follow as
    /// incomplete ones.
    pub fn new(pieces: &Bitfield) -> (r: Picker)
        requires
            pieces.wf(),
            pieces@.len() <= u32::MAX,
        ensures
            r.wf(),
            r.entries().len() == pieces@.len(),
            forall|j: int| 0 <= j < r.entries().len() ==> ((#[trigger] r.entries()[j]).status
                == PieceStatus::Complete <==> pieces@[r.entries()[j].pos as int]),
            r.frontier() == ones(pieces@, pieces@.len() as int),
            r.entries() == owned_entries(pieces@, pieces@.len() as int) + missing_entries(
                pieces@,
                pieces@.len() as int,
            ),
    {
        let n: u64 = pieces.len();
        let mut v: Vec<Piece> = Vec::new();
        let mut p: u64 = 0;
        while p < n
            invariant
                n == pieces@.len(),
                n <= u32::MAX,
                pieces.wf(),
                p <= n,
                v@.len() == ones(pieces@, p as int),
                v@ == owned_entries(pieces@, p as int),
                ones(pieces@, p as int) <= p,
                forall|j: int| 0 <= j < v@.len() ==> (#[trigger] v@[j]).status == PieceStatus::Complete
                    && v@[j].pos < p && pieces@[v@[j].pos as int],
                forall|a: int, b: int| 0 <= a < v@.len() && 0 <= b < v@.len() && a != b ==> v@[a].pos != v@[b].pos,
                forall|q: int| 0 <= q < p && pieces@[q] ==> exists|j: int| 0 <= j < v@.len() && #[trigger] v@[j].pos == q,
            decreases n - p,
        {
            if pieces.has_bit(p) {
                let ghost v0 = v@;
                v.push(Piece { pos: p as u32, status: PieceStatus::Complete });
                proof {
                    assert forall|q: int| 0 <= q < p + 1 && pieces@[q] implies exists|j: int|
                        0 <= j < v@.len() && #[trigger] v@[j].pos == q by {
                        if q == p {
                            assert(v@[v0.len() as int].pos == q);
                        } else {
                            let j = choose|j: int| 0 <= j < v0.len() && #[trigger] v0[j].pos == q;
                            assert(v@[j].pos == q);
                        }
                    }
                }
            }
            p = p + 1;
        }
        let il: usize = v.len();
        let mut p: u64 = 0;
        while p < n
            invariant
                n == pieces@.len(),
                n <= u32::MAX,
                pieces.wf(),
                p <= n,
                il == ones(pieces@, n as int),
                ones(pieces@, n as int) <= n,
                v@.len() - il == p - ones(pieces@, p as int),
                v@ == owned_entries(pieces@, n as int) + missing_entries(pieces@, p as int),
                ones(pieces@, p as int) <= p,
                forall|j: int| 0 <= j < il ==> (#[trigger] v@[j]).status == PieceStatus::Complete
                    && v@[j].pos < n && pieces@[v@[j].pos as int],
                forall|j: int| il <= j < v@.len() ==> (#[trigger] v@[j]).status == PieceStatus::Incomplete
                    && v@[j].pos < p && !pieces@[v@[j].pos as int],
                forall|a: int, b: int| 0 <= a < v@.len() && 0 <= b < v@.len() && a != b ==> v@[a].pos != v@[b].pos,
                forall|q: int| 0 <= q < n && pieces@[q] ==> exists|j: int| 0 <= j < il && #[trigger] v@[j].pos == q,
                forall|q: int| 0 <= q < p && !pieces@[q] ==> exists|j: int| il <= j < v@.len() && #[trigger] v@[j].pos == q,
            decreases n - p,
        {
            if !pieces.has_bit(p) {
                let ghost v0 = v@;
                v.push(Piece { pos: p as u32, status: PieceStatus::Incomplete });
                proof {
                    assert(v@ =~= owned_entries(pieces@, n as int) + missing_entries(pieces@, p + 1));
                    assert forall|q: int| 0 <= q < n && pieces@[q] implies exists|j: int|
                        0 <= j < il && #[trigger] v@[j].pos == q by {
                        let j = choose|j: int| 0 <= j < il && #[trigger] v0[j].pos == q;
                        assert(v@[j].pos == q);
                    }
                    assert forall|q: int| 0 <= q < p + 1 && !pieces@[q] implies exists|j: int|
                        il <= j < v@.len() && #[trigger] v@[j].pos == q by {
                        if q == p {
                            assert(v@[v0.len() as int].pos == q);
                        } else {
                            let j = choose|j: int| il <= j < v0.len() && #[trigger] v0[j].pos == q;
                            assert(v@[j].pos == q);
                        }
                    }
                }
            }
            proof {
                if pieces@[p as int] {
                    assert(v@ =~= owned_entries(pieces@, n as int) + missing_entries(pieces@, p + 1));
                }
            }
            p = p + 1;
        }
        let r = Picker { piece_idx: il, pieces: v };
        proof {
            assert forall|q: int| 0 <= q < n implies #[trigger] has_entry(v@, q) by {
                if pieces@[q] {
                    let j = choose|j: int| 0 <= j < il && #[trigger] v@[j].pos == q;
                } else {
                    let j = choose|j: int| il <= j < v@.len() && #[trigger] v@[j].pos == q;
                }
            }
        }
        r
    }
}

impl Picker {
    /// The first piece from the frontier on that is incomplete and that a
    /// peer with availability `bits` holds.
    pub fn pick_from(&self, bits: &Bitfield) -> (r: Option<u32>)
        requires
            self.wf(),
            bits.wf(),
        ensures
            self.pick_spec(bits@, r),
    {
        let mut j: usize = self.piece_idx;
        while j < self.pieces.len()
            invariant
                self.wf(),
                bits.wf(),
                self.frontier() <= j <= self.entries().len(),
                forall|k: int| self.frontier() <= k < j ==> !self.wanted(bits@, k),
            decreases self.pieces.len() - j,
        {
            let e = self.pieces[j];
            if e.status == PieceStatus::Incomplete && (e.pos as u64) < bits.len() && bits.has_bit(e.pos as u64) {
                proof {
                    assert(self.wanted(bits@, j as int));
                    assert(self.entries()[j as int].pos == e.pos);
                }
                return Some(e.pos);
            }
            j = j + 1;
        }
        None
    }

    /// The first piece from the frontier on that is incomplete and that
    /// `peer` has.
    pub fn pick(&self, peer: &Peer) -> (r: Option<u32>)
        requires
            self.wf(),
            peer.wf(),
        ensures
            self.pick_spec(peer.pieces@, r),
    {
        self.pick_from(peer.pieces())
    }

    /// Marks piece `idx` complete.
    pub fn completed(&mut self, idx: u32)
        requires
            old(self).wf(),
        ensures
            final(self).wf(),
            old(self).completed_rel(idx, final(self)),
            (idx as int) < old(self).entries().len() ==> final(self).piece_complete(idx),
            forall|i: u32| i != idx ==> #[trigger] final(self).piece_complete(i) == old(self).piece_complete(i),
    {
        let ghost before = *self;
        let mut j: usize = self.piece_idx;
        while j < self.pieces.len() && self.pieces[j].pos != idx
            invariant
                before.wf(),
                *self == before,
                self.frontier() <= j <= self.entries().len(),
                forall|k: int| self.frontier() <= k < j ==> self.entries()[k].pos != idx,
            decreases self.pieces.len() - j,
        {
            j = j + 1;
        }
        if j < self.pieces.len() {
            self.pieces.set(j, Piece { pos: idx, status: PieceStatus::Complete });
        }
        proof {
            assert forall|k: int| 0 <= k < self.entries().len() implies #[trigger] self.entries()[k]
                == if before.frontier() <= k && before.entries()[k].pos == idx {
                Piece { pos: idx, status: PieceStatus::Complete }
            } else {
                before.entries()[k]
            } by {
                if k != j && before.entries()[k].pos == idx && j < before.entries().len() {
                    assert(before.entries()[j as int].pos == idx);
                }
            }
            assert forall|p: int| 0 <= p < self.entries().len() implies #[trigger] has_entry(self.entries(), p) by {
                assert(has_entry(before.entries(), p));
                let w = choose|w: int| 0 <= w < before.entries().len() && #[trigger] before.entries()[w].pos == p;
                assert(self.entries()[w].pos == p);
            }
        }
        self.update_piece_idx();
        proof {
            lemma_completed_status(before, *self, idx);
        }
    }

    /// Moves the frontier past the completed entries at it.
    fn update_piece_idx(&mut self)
        requires
            0 <= old(self).frontier() <= old(self).entries().len(),
            forall|j: int| 0 <= j < old(self).frontier() ==> (#[trigger] old(self).entries()[j]).status
                == PieceStatus::Complete,
        ensures
            final(self).entries() == old(self).entries(),
            old(self).frontier() <= final(self).frontier() <= final(self).entries().len(),
            forall|j: int| 0 <= j < final(self).frontier() ==> (#[trigger] final(self).entries()[j]).status
                == PieceStatus::Complete,
            final(self).frontier() == final(self).entries().len()
                || final(self).entries()[final(self).frontier()].status == PieceStatus::Incomplete,
    {
        while self.piece_idx < self.pieces.len() && self.pieces[self.piece_idx].status == PieceStatus::Complete
            invariant
                self.entries() == old(self).entries(),
                old(self).frontier() <= self.frontier() <= self.entries().len(),
                forall|j: int| 0 <= j < self.frontier() ==> (#[trigger] self.entries()[j]).status
                    == PieceStatus::Complete,
            decreases self.pieces.len() - self.piece_idx,
        {
            self.piece_idx = self.piece_idx + 1;
        }
    }

    /// Marks piece `idx` incomplete again, so that later picks see it.
    pub fn incomplete(&mut self, idx: u32)
        requires
            old(self).wf(),
        ensures
            final(self).wf(),
            old(self).incomplete_rel(idx, final(self)),
            !final(self).piece_complete(idx),
            forall|i: u32| i != idx ==> #[trigger] final(self).piece_complete(i) == old(self).piece_complete(i),
    {
        let ghost before = *self;
        let mut j: usize = 0;
        while j < self.pieces.len() && self.pieces[j].pos != idx
            invariant
                before.wf(),
                *self == before,
                j <= self.entries().len(),
                forall|k: int| 0 <= k < j ==> self.entries()[k].pos != idx,
            decreases self.pieces.len() - j,
        {
            j = j + 1;
        }
        if j < self.pieces.len() {
            self.pieces.set(j, Piece { pos: idx, status: PieceStatus::Incomplete });
            if j < self.piece_idx {
                self.piece_idx = j;
            }
            proof {
                assert forall|k: int| 0 <= k < before.entries().len() && #[trigger] before.entries()[k].pos
                    == idx implies k == j by {}
                assert forall|p: int| 0 <= p < self.entries().len() implies #[trigger] has_entry(self.entries(), p) by {
                    assert(has_entry(before.entries(), p));
                    let w = choose|w: int| 0 <= w < before.entries().len() && #[trigger] before.entries()[w].pos == p;
                    assert(self.entries()[w].pos == p);
                }
            }
        } else {
            proof {
                assert(self.entries() =~= before.entries());
            }
        }
        proof {
            lemma_incomplete_status(before, *self, idx);
        }
    }
}

/// Applies the disk worker's verdict on piece `idx`: a valid piece is
/// completed and announced to every peer with `Have`; an invalid one is
/// marked incomplete so that it is picked again.
pub fn piece_validated(picker: &mut Picker, peers: &mut Vec<Peer>, idx: u32, valid: bool)
    requires
        old(picker).wf(),
    ensures
        final(picker).wf(),
        valid ==> old(picker).completed_rel(idx, final(picker)),
        !valid ==> old(picker).incomplete_rel(idx, final(picker)),
        final(peers)@.len() == old(peers)@.len(),
        forall|k: int| 0 <= k < old(peers)@.len() ==> if valid {
            old(peers)@[k].sent(Message::Have(idx), &final(peers)@[k])
        } else {
            #[trigger] final(peers)@[k] == old(peers)@[k]
        },
{
    if !valid {
        picker.incomplete(idx);
        return;
    }
    picker.completed(idx);
    let ghost before = peers@;
    let mut k: usize = 0;
    while k < peers.len()
        invariant
            peers@.len() == before.len(),
            k <= peers@.len(),
            forall|j: int| 0 <= j < k ==> before[j].sent(Message::Have(idx), &peers@[j]),
            forall|j: int| k <= j < peers@.len() ==> #[trigger] peers@[j] == before[j],
        decreases peers.len() - k,
    {
        peers[k].send_message(Message::Have(idx));
        k = k + 1;
    }
}

proof fn lemma_completed_status(p: Picker, q: Picker, idx: u32)
    requires
        p.wf(),
        q.wf(),
        p.completed_rel(idx, &q),
    ensures
        (idx as int) < p.entries().len() ==> q.piece_complete(idx),
        forall|i: u32| i != idx ==> #[trigger] q.piece_complete(i) == p.piece_complete(i),
{
    if (idx as int) < p.entries().len() {
        assert(has_entry(p.entries(), idx as int));
        let j = choose|j: int| 0 <= j < p.entries().len() && #[trigger] p.entries()[j].pos == idx;
        assert(q.entries()[j].pos == idx);
        if j < p.frontier() {
            assert(q.entries()[j] == p.entries()[j]);
        }
        assert(q.entries()[j].status == PieceStatus::Complete);
    }
    assert forall|i: u32| i != idx implies #[trigger] q.piece_complete(i) == p.piece_complete(i) by {
        if q.piece_complete(i) {
            let j = choose|j: int| 0 <= j < q.entries().len() && #[trigger] q.entries()[j].pos == i
                && q.entries()[j].status == PieceStatus::Complete;
            assert(p.entries()[j] == q.entries()[j]);
        }
        if p.piece_complete(i) {
            let j = choose|j: int| 0 <= j < p.entries().len() && #[trigger] p.entries()[j].pos == i
                && p.entries()[j].status == PieceStatus::Complete;
            assert(p.entries()[j] == q.entries()[j]);
        }
    }
}

proof fn lemma_incomplete_status(p: Picker, q: Picker, idx: u32)
    requires
        p.wf(),
        q.wf(),
        p.incomplete_rel(idx, &q),
    ensures
        !q.piece_complete(idx),
        forall|i: u32| i != idx ==> #[trigger] q.piece_complete(i) == p.piece_complete(i),
{
    if q.piece_complete(idx) {
        let j = choose|j: int| 0 <= j < q.entries().len() && #[trigger] q.entries()[j].pos == idx
            && q.entries()[j].status == PieceStatus::Complete;
        assert(q.entries()[j] == p.entries()[j]);
    }
    assert forall|i: u32| i != idx implies #[trigger] q.piece_complete(i) == p.piece_complete(i) by {
        if q.piece_complete(i) {
            let j = choose|j: int| 0 <= j < q.entries().len() && #[trigger] q.entries()[j].pos == i
                && q.entries()[j].status == PieceStatus::Complete;
            assert(p.entries()[j] == q.entries()[j]);
        }
        if p.piece_complete(i) {
            let j = choose|j: int| 0 <= j < p.entries().len() && #[trigger] p.entries()[j].pos == i
                && p.entries()[j].status == PieceStatus::Complete;
            assert(p.entries()[j] == q.entries()[j]);
        }
    }
}

/// No peer is picked a piece that is complete.  `completed(i)` makes piece
/// `i` complete and every other call but `incomplete(i)` keeps it so, hence
/// after `completed(i)` no pick returns `i` until `incomplete(i)`.
pub proof fn lemma_complete_never_picked(q: Picker, i: u32, bits: Seq<bool>, r: Option<u32>)
    requires
        q.wf(),
        q.piece_complete(i),
        q.pick_spec(bits, r),
    ensures
        r != Some(i),
{
    if r == Some(i) {
        let j = choose|j: int| q.wanted(bits, j) && #[trigger] q.entries()[j].pos == i
            && forall|k: int| q.frontier() <= k < j ==> !q.wanted(bits, k);
        let c = choose|c: int| 0 <= c < q.entries().len() && #[trigger] q.entries()[c].pos == i
            && q.entries()[c].status == PieceStatus::Complete;
        assert(c != j);
    }
}

/// A peer that holds piece `i` alone is picked `i` whenever `i` is a piece
/// of the picker and not complete.  `incomplete(i)` makes it so, and every
/// other call but `completed(i)` keeps it so.
pub proof fn lemma_incomplete_picked(q: Picker, i: u32)
    requires
        q.wf(),
        (i as int) < q.entries().len(),
        !q.piece_complete(i),
    ensures
        exists|bits: Seq<bool>| holds(bits, i) && q.pick_spec(bits, Some(i)),
{
    let n = q.entries().len();
    let bits = Seq::new(n, |k: int| k == i);
    assert(has_entry(q.entries(), i as int));
    let j = choose|j: int| 0 <= j < n && #[trigger] q.entries()[j].pos == i;
    assert(q.entries()[j].status == PieceStatus::Incomplete);
    if j < q.frontier() {
        assert(q.entries()[j].status == PieceStatus::Complete);
    }
    assert(q.wanted(bits, j));
    assert forall|k: int| q.frontier() <= k < j implies !q.wanted(bits, k) by {
        if q.wanted(bits, k) {
            assert(q.entries()[k].pos == i);
        }
    }
    assert(holds(bits, i));
    assert(q.pick_spec(bits, Some(i)));
}

} // verus!
