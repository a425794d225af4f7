//! Global upload/download rate limiting with two token buckets.
//!
//! One token is one byte.  The buckets are owned by the `Throttler`; a
//! `Throttle` is a peer's handle, which names the peer and borrows the
//! throttler for each debit or credit.
use vstd::prelude::*;

verus! {

/// Period of the refill tick, in milliseconds.
pub const URATE: usize = 15;

/// Period of the flush tick, in milliseconds.
pub const FLUSH_PERIOD: usize = 50;

/// Tokens left after asking a bucket for `n` tokens.
pub open spec fn tokens_after_take(rate: int, tokens: int, n: int) -> int {
    if rate != 0 && n <= tokens {
        tokens - n
    } else {
        tokens
    }
}

/// Whether a bucket grants a request for `n` tokens: always when the rate is
/// zero (unlimited), else when it holds at least `n` tokens.
pub open spec fn take_granted(rate: int, tokens: int, n: int) -> bool {
    rate == 0 || n <= tokens
}

/// Tokens after one refill tick: the rate times the tick period is added,
/// with `max` as the ceiling.
pub open spec fn tokens_after_tick(rate: int, tokens: int, max: int) -> int {
    if tokens + rate * URATE >= max {
        max
    } else {
        tokens + rate * URATE
    }
}

/// Bytes per second reported by a tick that drains `used` bytes.
pub open spec fn tick_report(used: int) -> int {
    if (used / URATE as int) * 1000 > u64::MAX {
        u64::MAX as int
    } else {
        (used / URATE as int) * 1000
    }
}

/// The ids in `v`, where `v` lists each id at most once.
pub open spec fn id_set(v: Seq<usize>) -> Set<usize> {
    v.to_set()
}

/// One token bucket.
pub struct ThrottleData {
    /// Tokens per millisecond; zero means unlimited.
    pub rate: usize,
    pub tokens: usize,
    pub max_tokens: usize,
    /// Bytes granted since the last tick.
    pub last_used: u64,
    /// Peers that were refused tokens since the last flush.
    pub throttled: Vec<usize>,
}

impl ThrottleData {
    /// Each refused peer is recorded once.
    pub open spec fn wf(&self) -> bool {
        self.throttled@.no_duplicates()
    }

    /// Same rate, tokens, ceiling and usage as `o`.
    pub open spec fn same_counters(&self, o: ThrottleData) -> bool {
        self.rate == o.rate && self.tokens == o.tokens && self.max_tokens == o.max_tokens
            && self.last_used == o.last_used
    }

    /// An empty bucket with this rate and ceiling, and no refused peer.
    pub open spec fn is_fresh(&self, rate: usize, max_tokens: usize) -> bool {
        &&& self.rate == rate
        &&& self.max_tokens == max_tokens
        &&& self.tokens == 0
        &&& self.last_used == 0
        &&& self.throttled@ == Seq::<usize>::empty()
    }

    /// The bucket after one refill tick.
    pub open spec fn tick_spec(&self) -> ThrottleData {
        ThrottleData {
            tokens: tokens_after_tick(self.rate as int, self.tokens as int, self.max_tokens as int) as usize,
            last_used: 0,
            ..*self
        }
    }

    /// The bucket after a request for `n` tokens, granted or not.
    pub open spec fn take_spec(&self, n: usize) -> ThrottleData {
        if take_granted(self.rate as int, self.tokens as int, n as int) {
            ThrottleData {
                tokens: tokens_after_take(self.rate as int, self.tokens as int, n as int) as usize,
                last_used: if self.last_used + n > u64::MAX {
                    u64::MAX
                } else {
                    (self.last_used + n) as u64
                },
                ..*self
            }
        } else {
            *self
        }
    }

    /// The bucket after `n` unused tokens are given back.
    pub open spec fn restore_spec(&self, n: usize) -> ThrottleData {
        ThrottleData {
            tokens: if self.tokens + n > usize::MAX {
                usize::MAX
            } else {
                (self.tokens + n) as usize
            },
            last_used: if self.last_used >= n {
                (self.last_used - n) as u64
            } else {
                0
            },
            ..*self
        }
    }

    /// An empty bucket with the given rate and ceiling.
    pub fn new(rate: usize, max_tokens: usize) -> (r: ThrottleData)
        ensures
            r.wf(),
            r.is_fresh(rate, max_tokens),
    {
        ThrottleData { rate, tokens: 0, max_tokens, last_used: 0, throttled: Vec::new() }
    }

    /// Gives back `amnt` tokens that a short write did not use.  The usage
    /// counter is clamped at zero when a tick has reset it in between.
    pub fn restore_tokens(&mut self, amnt: usize)
        ensures
            *final(self) == old(self).restore_spec(amnt),
    {
        self.last_used = self.last_used.saturating_sub(amnt as u64);
        self.tokens = self.tokens.saturating_add(amnt);
    }

    /// The refill tick: adds `rate * URATE` tokens up to the ceiling, resets
    /// the usage counter and returns the drained usage as bytes per second.
    pub fn add_tokens(&mut self) -> (r: u64)
        ensures
            r == tick_report(old(self).last_used as int),
            *final(self) == old(self).tick_spec(),
    {
        let drained: u64 = self.last_used;
        self.last_used = 0;
        if self.rate > (usize::MAX - self.tokens) / URATE {
            // the sum does not fit in usize, so it is over the ceiling
            self.tokens = self.max_tokens;
        } else {
            let sum: usize = self.tokens + self.rate * URATE;
            if sum >= self.max_tokens {
                self.tokens = self.max_tokens;
            } else {
                self.tokens = sum;
            }
        }
        let per_tick: u64 = drained / (URATE as u64);
        if per_tick > u64::MAX / 1000 {
            u64::MAX
        } else {
            per_tick * 1000
        }
    }

    /// Tries to take `amnt` tokens.  The usage counter saturates at
    /// `u64::MAX`.
    pub fn get_tokens(&mut self, amnt: usize) -> (r: Result<(), ()>)
        ensures
            r is Ok <==> take_granted(old(self).rate as int, old(self).tokens as int, amnt as int),
            *final(self) == old(self).take_spec(amnt),
    {
        if self.rate == 0 {
            self.last_used = self.last_used.saturating_add(amnt as u64);
            return Ok(());
        }
        if amnt > self.tokens {
            Err(())
        } else {
            self.last_used = self.last_used.saturating_add(amnt as u64);
            self.tokens = self.tokens - amnt;
            Ok(())
        }
    }

    /// Records `id` as refused, once.
    pub fn mark_throttled(&mut self, id: usize)
        requires
            old(self).wf(),
        ensures
            final(self).wf(),
            id_set(final(self).throttled@) == id_set(old(self).throttled@).insert(id),
            final(self).rate == old(self).rate,
            final(self).tokens == old(self).tokens,
            final(self).max_tokens == old(self).max_tokens,
            final(self).last_used == old(self).last_used,
    {
        let mut i: usize = 0;
        while i < self.throttled.len()
            invariant
                0 <= i <= self.throttled.len(),
                self.wf(),
                forall|j: int| 0 <= j < i ==> self.throttled@[j] != id,
            decreases self.throttled.len() - i,
        {
            if self.throttled[i] == id {
                proof {
                    assert(id_set(self.throttled@).insert(id) =~= id_set(self.throttled@));
                }
                return;
            }
            i = i + 1;
        }
        let ghost before = self.throttled@;
        self.throttled.push(id);
        proof {
            assert(self.throttled@ == before.push(id));
            assert(id_set(self.throttled@) =~= id_set(before).insert(id)) by {
                assert forall|x: usize| id_set(self.throttled@).contains(x)
                    <==> id_set(before).insert(id).contains(x) by {
                    if id_set(self.throttled@).contains(x) && x != id {
                        let k = choose|k: int| 0 <= k < self.throttled@.len() && self.throttled@[k] == x;
                        assert(before[k] == x);
                    }
                    if before.contains(x) {
                        let k = choose|k: int| 0 <= k < before.len() && before[k] == x;
                        assert(self.throttled@[k] == x);
                    }
                    if x == id {
                        assert(self.throttled@[before.len() as int] == id);
                    }
                }
            }
        }
    }

    /// Forgets `id` as refused.
    pub fn unmark_throttled(&mut self, id: usize)
        requires
            old(self).wf(),
        ensures
            final(self).wf(),
            id_set(final(self).throttled@) == id_set(old(self).throttled@).remove(id),
            final(self).rate == old(self).rate,
            final(self).tokens == old(self).tokens,
            final(self).max_tokens == old(self).max_tokens,
            final(self).last_used == old(self).last_used,
    {
        let mut kept: Vec<usize> = Vec::new();
        let mut i: usize = 0;
        while i < self.throttled.len()
            invariant
                0 <= i <= self.throttled.len(),
                self.throttled@.no_duplicates(),
                kept@.no_duplicates(),
                forall|x: usize| #[trigger] kept@.contains(x) <==> (x != id && exists|j: int|
                    0 <= j < i && self.throttled@[j] == x),
            decreases self.throttled.len() - i,
        {
            let x = self.throttled[i];
            let ghost k0 = kept@;
            if x != id {
                kept.push(x);
                proof {
                    assert forall|y: usize| #[trigger] kept@.contains(y) <==> (k0.contains(y) || y == x) by {
                        if kept@.contains(y) {
                            let k = choose|k: int| 0 <= k < kept@.len() && kept@[k] == y;
                            if k < k0.len() {
                                assert(k0[k] == y);
                            }
                        }
                        if k0.contains(y) {
                            let k = choose|k: int| 0 <= k < k0.len() && k0[k] == y;
                            assert(kept@[k] == y);
                        }
                        if y == x {
                            assert(kept@[k0.len() as int] == y);
                        }
                    }
                    assert(!k0.contains(x));
                    assert forall|a: int, b: int| 0 <= a < kept@.len() && 0 <= b < kept@.len() && a != b
                        implies kept@[a] != kept@[b] by {
                        if a == k0.len() {
                            assert(k0.contains(kept@[b]));
                        } else if b == k0.len() {
                            assert(k0.contains(kept@[a]));
                        }
                    }
                }
            }
            proof {
                assert forall|y: usize| #[trigger] kept@.contains(y) <==> (y != id && exists|j: int|
                    0 <= j < i + 1 && self.throttled@[j] == y) by {
                    if y != id && y == x {
                        assert(self.throttled@[i as int] == y);
                    }
                }
            }
            i = i + 1;
        }
        proof {
            assert forall|y: usize| #[trigger] id_set(kept@).contains(y) <==> id_set(self.throttled@).remove(id).contains(y) by {
                if self.throttled@.contains(y) {
                    let k = choose|k: int| 0 <= k < self.throttled@.len() && self.throttled@[k] == y;
                    assert(self.throttled@[k] == y);
                }
            }
            assert(id_set(kept@) =~= id_set(self.throttled@).remove(id));
        }
        self.throttled = kept;
    }

    /// Empties the refused set and returns what it held.
    pub fn drain_throttled(&mut self) -> (r: Vec<usize>)
        requires
            old(self).wf(),
        ensures
            final(self).wf(),
            r@ == old(self).throttled@,
            final(self).throttled@ == Seq::<usize>::empty(),
            final(self).rate == old(self).rate,
            final(self).tokens == old(self).tokens,
            final(self).max_tokens == old(self).max_tokens,
            final(self).last_used == old(self).last_used,
    {
        let mut out: Vec<usize> = Vec::new();
        std::mem::swap(&mut out, &mut self.throttled);
        out
    }
}

/// The two buckets shared by all peers of the process, and the ids of the
/// reactor timers that drive them.
pub struct Throttler {
    pub id: usize,
    pub fid: usize,
    pub last_ul: u64,
    pub last_dl: u64,
    pub ul_data: ThrottleData,
    pub dl_data: ThrottleData,
}

/// A peer's handle on the throttler.
#[derive(Clone, Copy, Debug, PartialEq, Eq)]
pub struct Throttle {
    pub id: usize,
}

impl Throttler {
    pub open spec fn wf(&self) -> bool {
        self.ul_data.wf() && self.dl_data.wf()
    }

    /// Same timer ids and last report as `o`.
    pub open spec fn same_timers(&self, o: Throttler) -> bool {
        self.id == o.id && self.fid == o.fid && self.last_ul == o.last_ul && self.last_dl == o.last_dl
    }

    pub open spec fn spec_id(&self) -> usize {
        self.id
    }

    pub open spec fn spec_fid(&self) -> usize {
        self.fid
    }

    /// Bytes per second last reported for (upload, download).
    pub open spec fn last_report(&self) -> (u64, u64) {
        (self.last_ul, self.last_dl)
    }

    /// A throttler with empty buckets.  `id` and `fid` are the reactor's
    /// registrations of the refill tick (every `URATE` ms) and of the flush
    /// tick (every `FLUSH_PERIOD` ms).
    pub fn new(dl_rate: usize, ul_rate: usize, max_tokens: usize, id: usize, fid: usize) -> (r: Throttler)
        ensures
            r.wf(),
            r.spec_id() == id,
            r.spec_fid() == fid,
            r.last_report() == (0u64, 0u64),
            r.ul_data.is_fresh(ul_rate, max_tokens),
            r.dl_data.is_fresh(dl_rate, max_tokens),
    {
        Throttler {
            id,
            fid,
            last_ul: 0,
            last_dl: 0,
            ul_data: ThrottleData::new(ul_rate, max_tokens),
            dl_data: ThrottleData::new(dl_rate, max_tokens),
        }
    }

    /// The refill tick of both buckets.  Returns the (upload, download)
    /// bytes per second when either differs from the last report.
    pub fn update(&mut self) -> (r: Option<(u64, u64)>)
        requires
            old(self).wf(),
        ensures
            final(self).wf(),
            final(self).ul_data == old(self).ul_data.tick_spec(),
            final(self).dl_data == old(self).dl_data.tick_spec(),
            final(self).last_report() == (
                tick_report(old(self).ul_data.last_used as int) as u64,
                tick_report(old(self).dl_data.last_used as int) as u64,
            ),
            r == if final(self).last_report() == old(self).last_report() {
                None
            } else {
                Some(final(self).last_report())
            },
            final(self).spec_id() == old(self).spec_id(),
            final(self).spec_fid() == old(self).spec_fid(),
    {
        let ul = self.ul_data.add_tokens();
        let dl = self.dl_data.add_tokens();
        if ul != self.last_ul || dl != self.last_dl {
            self.last_ul = ul;
            self.last_dl = dl;
            Some((ul, dl))
        } else {
            None
        }
    }

    /// A handle for peer `id`.
    pub fn get_throttle(&self, id: usize) -> (r: Throttle)
        ensures
            r.id == id,
    {
        Throttle { id }
    }

    pub fn ul_rate(&self) -> (r: usize)
        ensures
            r == self.ul_data.rate,
    {
        self.ul_data.rate
    }

    pub fn dl_rate(&self) -> (r: usize)
        ensures
            r == self.dl_data.rate,
    {
        self.dl_data.rate
    }

    pub fn set_ul_rate(&mut self, rate: usize)
        ensures
            final(self).ul_data == (ThrottleData { rate, ..old(self).ul_data }),
            final(self).dl_data == old(self).dl_data,
            final(self).spec_id() == old(self).spec_id(),
            final(self).spec_fid() == old(self).spec_fid(),
            final(self).last_report() == old(self).last_report(),
    {
        self.ul_data.rate = rate;
    }

    pub fn set_dl_rate(&mut self, rate: usize)
        ensures
            final(self).dl_data == (ThrottleData { rate, ..old(self).dl_data }),
            final(self).ul_data == old(self).ul_data,
            final(self).spec_id() == old(self).spec_id(),
            final(self).spec_fid() == old(self).spec_fid(),
            final(self).last_report() == old(self).last_report(),
    {
        self.dl_data.rate = rate;
    }

    /// Registration id of the refill tick.
    pub fn id(&self) -> (r: usize)
        ensures
            r == self.spec_id(),
    {
        self.id
    }

    /// Registration id of the flush tick.
    pub fn fid(&self) -> (r: usize)
        ensures
            r == self.spec_fid(),
    {
        self.fid
    }

    /// Hands back, and forgets, the peers refused upload tokens.
    pub fn flush_ul(&mut self) -> (r: Vec<usize>)
        requires
            old(self).wf(),
        ensures
            final(self).wf(),
            r@ == old(self).ul_data.throttled@,
            final(self).ul_data == (ThrottleData { throttled: final(self).ul_data.throttled, ..old(self).ul_data }),
            final(self).ul_data.throttled@ == Seq::<usize>::empty(),
            final(self).dl_data == old(self).dl_data,
            final(self).spec_id() == old(self).spec_id(),
            final(self).spec_fid() == old(self).spec_fid(),
            final(self).last_report() == old(self).last_report(),
    {
        self.ul_data.drain_throttled()
    }

    /// Hands back, and forgets, the peers refused download tokens.
    pub fn flush_dl(&mut self) -> (r: Vec<usize>)
        requires
            old(self).wf(),
        ensures
            final(self).wf(),
            r@ == old(self).dl_data.throttled@,
            final(self).dl_data == (ThrottleData { throttled: final(self).dl_data.throttled, ..old(self).dl_data }),
            final(self).dl_data.throttled@ == Seq::<usize>::empty(),
            final(self).ul_data == old(self).ul_data,
            final(self).spec_id() == old(self).spec_id(),
            final(self).spec_fid() == old(self).spec_fid(),
            final(self).last_report() == old(self).last_report(),
    {
        self.dl_data.drain_throttled()
    }
}

impl Throttle {
    /// Another handle on the same throttler, for peer `id`.
    pub fn new_sibling(&self, id: usize) -> (r: Throttle)
        ensures
            r.id == id,
    {
        Throttle { id }
    }

    /// Asks the download bucket for `amnt` bytes; on refusal this peer is
    /// recorded for the next flush.
    pub fn get_bytes_dl(&self, throttler: &mut Throttler, amnt: usize) -> (r: Result<(), ()>)
        requires
            old(throttler).wf(),
        ensures
            final(throttler).wf(),
            r is Ok <==> take_granted(
                old(throttler).dl_data.rate as int,
                old(throttler).dl_data.tokens as int,
                amnt as int,
            ),
            final(throttler).dl_data.same_counters(old(throttler).dl_data.take_spec(amnt)),
            id_set(final(throttler).dl_data.throttled@) == if r is Ok {
                id_set(old(throttler).dl_data.throttled@)
            } else {
                id_set(old(throttler).dl_data.throttled@).insert(self.id)
            },
            final(throttler).ul_data == old(throttler).ul_data,
            final(throttler).same_timers(*old(throttler)),
    {
        let res = throttler.dl_data.get_tokens(amnt);
        if res.is_err() {
            throttler.dl_data.mark_throttled(self.id);
        }
        res
    }

    /// Asks the upload bucket for `amnt` bytes; on refusal this peer is
    /// recorded for the next flush.
    pub fn get_bytes_ul(&self, throttler: &mut Throttler, amnt: usize) -> (r: Result<(), ()>)
        requires
            old(throttler).wf(),
        ensures
            final(throttler).wf(),
            r is Ok <==> take_granted(
                old(throttler).ul_data.rate as int,
                old(throttler).ul_data.tokens as int,
                amnt as int,
            ),
            final(throttler).ul_data.same_counters(old(throttler).ul_data.take_spec(amnt)),
            id_set(final(throttler).ul_data.throttled@) == if r is Ok {
                id_set(old(throttler).ul_data.throttled@)
            } else {
                id_set(old(throttler).ul_data.throttled@).insert(self.id)
            },
            final(throttler).dl_data == old(throttler).dl_data,
            final(throttler).same_timers(*old(throttler)),
    {
        let res = throttler.ul_data.get_tokens(amnt);
        if res.is_err() {
            throttler.ul_data.mark_throttled(self.id);
        }
        res
    }

    pub fn ul_rate(&self, throttler: &Throttler) -> (r: usize)
        ensures
            r == throttler.ul_data.rate,
    {
        throttler.ul_rate()
    }

    pub fn dl_rate(&self, throttler: &Throttler) -> (r: usize)
        ensures
            r == throttler.dl_data.rate,
    {
        throttler.dl_rate()
    }

    pub fn set_ul_rate(&self, throttler: &mut Throttler, rate: usize)
        ensures
            final(throttler).ul_data == (ThrottleData { rate, ..old(throttler).ul_data }),
            final(throttler).dl_data == old(throttler).dl_data,
            final(throttler).same_timers(*old(throttler)),
    {
        throttler.set_ul_rate(rate);
    }

    pub fn set_dl_rate(&self, throttler: &mut Throttler, rate: usize)
        ensures
            final(throttler).dl_data == (ThrottleData { rate, ..old(throttler).dl_data }),
            final(throttler).ul_data == old(throttler).ul_data,
            final(throttler).same_timers(*old(throttler)),
    {
        throttler.set_dl_rate(rate);
    }

    /// Gives back download tokens that were taken but not used.
    pub fn restore_bytes_dl(&self, throttler: &mut Throttler, amnt: usize)
        ensures
            final(throttler).dl_data == old(throttler).dl_data.restore_spec(amnt),
            final(throttler).ul_data == old(throttler).ul_data,
            final(throttler).same_timers(*old(throttler)),
    {
        throttler.dl_data.restore_tokens(amnt);
    }

    /// Gives back upload tokens that were taken but not used.
    pub fn restore_bytes_ul(&self, throttler: &mut Throttler, amnt: usize)
        ensures
            final(throttler).ul_data == old(throttler).ul_data.restore_spec(amnt),
            final(throttler).dl_data == old(throttler).dl_data,
            final(throttler).same_timers(*old(throttler)),
    {
        throttler.ul_data.restore_tokens(amnt);
    }

    /// Ends this handle: its peer leaves both refused sets.
    pub fn release(self, throttler: &mut Throttler)
        requires
            old(throttler).wf(),
        ensures
            final(throttler).wf(),
            id_set(final(throttler).ul_data.throttled@) == id_set(old(throttler).ul_data.throttled@).remove(self.id),
            id_set(final(throttler).dl_data.throttled@) == id_set(old(throttler).dl_data.throttled@).remove(self.id),
            final(throttler).ul_data.same_counters(old(throttler).ul_data),
            final(throttler).dl_data.same_counters(old(throttler).dl_data),
            final(throttler).same_timers(*old(throttler)),
    {
        throttler.ul_data.unmark_throttled(self.id);
        throttler.dl_data.unmark_throttled(self.id);
    }
}

/// One event seen by a bucket: a refill tick, or a request for tokens.
pub enum BucketOp {
    Tick,
    Take(usize),
}

/// The bucket after the events `ops`, in order.
pub open spec fn run(b: ThrottleData, ops: Seq<BucketOp>) -> ThrottleData
    decreases ops.len(),
{
    if ops.len() == 0 {
        b
    } else {
        let p = run(b, ops.drop_last());
        match ops.last() {
            BucketOp::Tick => p.tick_spec(),
            BucketOp::Take(n) => p.take_spec(n),
        }
    }
}

/// Tokens granted over the events `ops`.
pub open spec fn granted(b: ThrottleData, ops: Seq<BucketOp>) -> int
    decreases ops.len(),
{
    if ops.len() == 0 {
        0
    } else {
        let p = run(b, ops.drop_last());
        granted(b, ops.drop_last()) + match ops.last() {
            BucketOp::Tick => 0int,
            BucketOp::Take(n) => if take_granted(p.rate as int, p.tokens as int, n as int) {
                n as int
            } else {
                0int
            },
        }
    }
}

/// Refill ticks among the events `ops`.
pub open spec fn ticks(ops: Seq<BucketOp>) -> int
    decreases ops.len(),
{
    if ops.len() == 0 {
        0
    } else {
        ticks(ops.drop_last()) + if ops.last() is Tick {
            1int
        } else {
            0int
        }
    }
}

proof fn lemma_run_budget(b: ThrottleData, ops: Seq<BucketOp>)
    requires
        b.rate > 0,
    ensures
        run(b, ops).rate == b.rate,
        run(b, ops).max_tokens == b.max_tokens,
        ticks(ops) >= 0,
        granted(b, ops) + run(b, ops).tokens <= b.tokens + b.rate * URATE * ticks(ops),
    decreases ops.len(),
{
    if ops.len() > 0 {
        let q = ops.drop_last();
        lemma_run_budget(b, q);
        let k = ticks(q);
        let r = b.rate as int;
        assert(r * URATE * (k + 1) == r * URATE * k + r * URATE) by (nonlinear_arith);
    }
}

/// Over any run of a limited bucket that starts at or below its ceiling, the
/// tokens granted are at most the rate times the ticked time plus the
/// ceiling.
pub proof fn lemma_rate_bound(b: ThrottleData, ops: Seq<BucketOp>)
    requires
        b.rate > 0,
        b.tokens <= b.max_tokens,
    ensures
        granted(b, ops) <= b.rate * (URATE * ticks(ops)) + b.max_tokens,
{
    lemma_run_budget(b, ops);
    let r = b.rate as int;
    let k = ticks(ops);
    assert(r * URATE * k == r * (URATE * k)) by (nonlinear_arith);
}

/// Giving back the `n` tokens of a granted request on a limited bucket
/// restores both the tokens and the usage counter, unless the usage counter
/// had saturated.
pub proof fn lemma_restore_inverts_take(b: ThrottleData, n: usize)
    requires
        b.rate > 0,
        take_granted(b.rate as int, b.tokens as int, n as int),
        b.last_used + n <= u64::MAX,
    ensures
        b.take_spec(n).restore_spec(n).tokens == b.tokens,
        b.take_spec(n).restore_spec(n).last_used == b.last_used,
{
}

} // verus!
