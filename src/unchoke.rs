//! Unchoke slot selection.
//!
//! Peers are ranked by their rolling rate, faster first and, among equal
//! rates, earlier first.  The best `slots` peers are unchoked, plus one
//! optimistic slot chosen among the others by a random draw.
use vstd::prelude::*;

verus! {

/// Regular unchoke slots per torrent.
pub const DEFAULT_SLOTS: usize = 4;

/// Peer `j` ranks before peer `i`.
pub open spec fn beats(rates: Seq<u64>, j: int, i: int) -> bool {
    rates[j] > rates[i] || (rates[j] == rates[i] && j < i)
}

/// Number of peers among the first `n` that rank before peer `i`.
pub open spec fn beaten_by(rates: Seq<u64>, i: int, n: int) -> int
    decreases n,
{
    if n <= 0 {
        0
    } else {
        beaten_by(rates, i, n - 1) + if beats(rates, n - 1, i) {
            1int
        } else {
            0int
        }
    }
}

/// Position of peer `i` in the ranking (0 = best).
pub open spec fn rank(rates: Seq<u64>, i: int) -> int {
    beaten_by(rates, i, rates.len() as int)
}

/// Peer `i` holds a regular slot.
pub open spec fn in_top(rates: Seq<u64>, slots: int, i: int) -> bool {
    rank(rates, i) < slots
}

/// Number of peers among the first `n` outside the regular slots.
pub open spec fn others_before(rates: Seq<u64>, slots: int, n: int) -> int
    decreases n,
{
    if n <= 0 {
        0
    } else {
        others_before(rates, slots, n - 1) + if in_top(rates, slots, n - 1) {
            0int
        } else {
            1int
        }
    }
}

/// Peer `i` holds the optimistic slot: it is outside the regular slots and
/// its position among those peers is the draw modulo their number.
pub open spec fn is_optimistic(rates: Seq<u64>, slots: int, draw: u64, i: int) -> bool {
    let rest = others_before(rates, slots, rates.len() as int);
    &&& !in_top(rates, slots, i)
    &&& rest > 0
    &&& others_before(rates, slots, i) == draw as int % rest
}

proof fn lemma_beaten_by_bound(rates: Seq<u64>, i: int, n: int)
    requires
        0 <= n,
    ensures
        0 <= beaten_by(rates, i, n) <= n,
    decreases n,
{
    if n > 0 {
        lemma_beaten_by_bound(rates, i, n - 1);
    }
}

proof fn lemma_others_bound(rates: Seq<u64>, slots: int, n: int)
    requires
        0 <= n,
    ensures
        0 <= others_before(rates, slots, n) <= n,
    decreases n,
{
    if n > 0 {
        lemma_others_bound(rates, slots, n - 1);
    }
}

fn rank_of(rates: &Vec<u64>, i: usize) -> (r: usize)
    requires
        i < rates@.len(),
    ensures
        r == rank(rates@, i as int),
{
    let mut c: usize = 0;
    let mut j: usize = 0;
    while j < rates.len()
        invariant
            i < rates@.len(),
            j <= rates@.len(),
            c == beaten_by(rates@, i as int, j as int),
        decreases rates.len() - j,
    {
        proof {
            lemma_beaten_by_bound(rates@, i as int, j as int);
        }
        if rates[j] > rates[i] || (rates[j] == rates[i] && j < i) {
            c = c + 1;
        }
        j = j + 1;
    }
    c
}

/// Which peers, given their rates, to leave unchoked: the `slots` best
/// ranked, and the optimistic one picked by `draw`.
pub fn select_unchoked(rates: &Vec<u64>, slots: usize, draw: u64) -> (r: Vec<bool>)
    ensures
        r@.len() == rates@.len(),
        forall|i: int| 0 <= i < rates@.len() ==> #[trigger] r@[i] == (in_top(rates@, slots as int, i)
            || is_optimistic(rates@, slots as int, draw, i)),
{
    let n = rates.len();
    let mut top: Vec<bool> = Vec::new();
    let mut rest: usize = 0;
    let mut i: usize = 0;
    while i < n
        invariant
            n == rates@.len(),
            i <= n,
            top@.len() == i,
            forall|k: int| 0 <= k < i ==> #[trigger] top@[k] == in_top(rates@, slots as int, k),
            rest == others_before(rates@, slots as int, i as int),
        decreases n - i,
    {
        proof {
            lemma_others_bound(rates@, slots as int, i as int);
        }
        let t = rank_of(rates, i) < slots;
        top.push(t);
        if !t {
            rest = rest + 1;
        }
        i = i + 1;
    }
    let mut out: Vec<bool> = Vec::new();
    let mut seen: usize = 0;
    let mut i: usize = 0;
    while i < n
        invariant
            n == rates@.len(),
            i <= n,
            top@.len() == n,
            forall|k: int| 0 <= k < n ==> #[trigger] top@[k] == in_top(rates@, slots as int, k),
            rest == others_before(rates@, slots as int, n as int),
            seen == others_before(rates@, slots as int, i as int),
            out@.len() == i,
            forall|k: int| 0 <= k < i ==> #[trigger] out@[k] == (in_top(rates@, slots as int, k)
                || is_optimistic(rates@, slots as int, draw, k)),
        decreases n - i,
    {
        proof {
            lemma_others_bound(rates@, slots as int, i as int);
        }
        if top[i] {
            out.push(true);
        } else {
            let pick = rest > 0 && seen as u64 == draw % (rest as u64);
            proof {
                if rest > 0 {
                    assert((draw % (rest as u64)) as int == draw as int % rest as int);
                }
            }
            out.push(pick);
            seen = seen + 1;
        }
        i = i + 1;
    }
    out
}

} // verus!
