//! Fixed-length piece availability vector, packed eight pieces to a byte
//! with the first piece in the high bit, as on the wire.
use vstd::prelude::*;

verus! {

/// Bit `j` (0 = high bit) of byte `b`.
pub open spec fn bit_of(b: u8, j: int) -> bool {
    (b >> ((7 - j) as u8)) & 1u8 == 1u8
}

/// Bytes needed for `n` bits.
pub open spec fn bytes_for(n: int) -> int {
    (n + 7) / 8
}

proof fn lemma_bit_set(b: u8, j: u8, k: u8)
    requires
        j < 8,
        k < 8,
    ensures
        bit_of(b | (0x80u8 >> j), k as int) == (k == j || bit_of(b, k as int)),
{
    assert(((b | (0x80u8 >> j)) >> (7 - k) as u8) & 1u8 == 1u8 <==> (k == j || (b >> (7 - k) as u8)
        & 1u8 == 1u8)) by (bit_vector)
        requires
            j < 8,
            k < 8,
    ;
}

proof fn lemma_bit_zero(k: u8)
    requires
        k < 8,
    ensures
        !bit_of(0u8, k as int),
{
    assert((0u8 >> (7 - k) as u8) & 1u8 != 1u8) by (bit_vector)
        requires
            k < 8,
    ;
}

#[derive(Clone, Debug, PartialEq, Eq)]
pub struct Bitfield {
    data: Vec<u8>,
    len: u64,
}

impl View for Bitfield {
    type V = Seq<bool>;

    closed spec fn view(&self) -> Seq<bool> {
        Seq::new(self.len as nat, |i: int| bit_of(self.data@[i / 8], i % 8))
    }
}

impl Bitfield {
    /// The packed bytes hold exactly the bytes that the length needs.
    pub closed spec fn wf(&self) -> bool {
        self.data@.len() == bytes_for(self.len as int)
    }

    /// The packed bytes, as sent on the wire.
    pub closed spec fn bytes(&self) -> Seq<u8> {
        self.data@
    }

    /// `n` pieces, none held.
    pub fn new(n: u64) -> (r: Bitfield)
        requires
            bytes_for(n as int) <= usize::MAX,
        ensures
            r.wf(),
            r@ == Seq::new(n as nat, |i: int| false),
    {
        let nb: usize = (n / 8) as usize + if n % 8 == 0 { 0usize } else { 1usize };
        let mut data: Vec<u8> = Vec::new();
        while data.len() < nb
            invariant
                data.len() <= nb,
                forall|k: int| 0 <= k < data@.len() ==> data@[k] == 0u8,
            decreases nb - data.len(),
        {
            data.push(0u8);
        }
        let r = Bitfield { data, len: n };
        proof {
            assert forall|i: int| 0 <= i < n implies !#[trigger] r@[i] by {
                lemma_bit_zero((i % 8) as u8);
            }
            assert(r@ =~= Seq::new(n as nat, |i: int| false));
        }
        r
    }

    /// A bitfield whose pieces are the bits of `data`, eight per byte.
    pub fn from_bytes(data: Vec<u8>) -> (r: Bitfield)
        requires
            8 * data@.len() <= u64::MAX,
        ensures
            r.wf(),
            r.bytes() == data@,
            r@.len() == 8 * data@.len(),
            forall|i: int| 0 <= i < r@.len() ==> #[trigger] r@[i] == bit_of(data@[i / 8], i % 8),
    {
        let len: u64 = data.len() as u64 * 8;
        Bitfield { data, len }
    }

    /// Whether the packed bytes are exactly those the length needs.
    pub fn is_wf(&self) -> (r: bool)
        ensures
            r == self.wf(),
    {
        let nb: u64 = self.len / 8 + if self.len % 8 == 0 { 0u64 } else { 1u64 };
        self.data.len() as u64 == nb
    }

    /// The packed bytes.
    pub fn as_bytes(&self) -> (r: &Vec<u8>)
        ensures
            r@ == self.bytes(),
    {
        &self.data
    }

    pub fn len(&self) -> (r: u64)
        requires
            self.wf(),
        ensures
            r == self@.len(),
            bytes_for(r as int) <= usize::MAX,
    {
        // the byte count is a usize, which bounds the length
        let nbytes: usize = self.data.len();
        self.len
    }

    pub fn has_bit(&self, i: u64) -> (r: bool)
        requires
            self.wf(),
            i < self@.len(),
        ensures
            r == self@[i as int],
    {
        let nbytes: usize = self.data.len();
        assert(i / 8 < nbytes);
        let k: usize = (i / 8) as usize;
        let byte = self.data[k];
        let j: u8 = (i % 8) as u8;
        assert(self@[i as int] == bit_of(byte, j as int));
        (byte >> (7 - j)) & 1u8 == 1u8
    }

    pub fn set_bit(&mut self, i: u64)
        requires
            old(self).wf(),
            i < old(self)@.len(),
        ensures
            final(self).wf(),
            final(self)@ == old(self)@.update(i as int, true),
            final(self).bytes().len() == old(self).bytes().len(),
    {
        let ghost before = *self;
        let nbytes: usize = self.data.len();
        assert(i / 8 < nbytes);
        let k: usize = (i / 8) as usize;
        let j: u8 = (i % 8) as u8;
        let byte = self.data[k];
        self.data.set(k, byte | (0x80u8 >> j));
        proof {
            assert forall|p: int| 0 <= p < self.len implies self@[p] == before@.update(i as int, true)[p] by {
                if p / 8 == k as int {
                    lemma_bit_set(byte, j, (p % 8) as u8);
                }
            }
            assert(self@ =~= before@.update(i as int, true));
        }
    }

    /// Makes the length exactly `n`: bits past `n` are dropped, and bits
    /// added past the old length are clear.
    pub fn cap(&mut self, n: u64)
        requires
            old(self).wf(),
            bytes_for(n as int) <= usize::MAX,
        ensures
            final(self).wf(),
            final(self)@.len() == n,
            forall|i: int| 0 <= i < n ==> final(self)@[i] == (i < old(self)@.len() && old(self)@[i]),
    {
        if n <= self.len {
            let nb: usize = (n / 8) as usize + if n % 8 == 0 { 0usize } else { 1usize };
            let ghost before = *self;
            self.data.truncate(nb);
            self.len = n;
            proof {
                assert forall|i: int| 0 <= i < n implies self@[i] == before@[i] by {
                    assert(i / 8 < nb);
                }
            }
        } else {
            let mut fresh = Bitfield::new(n);
            let mut i: u64 = 0;
            while i < self.len
                invariant
                    self.wf(),
                    self.len < n,
                    i <= self.len,
                    fresh.wf(),
                    fresh@.len() == n,
                    forall|k: int| 0 <= k < n ==> fresh@[k] == (k < i && self@[k]),
                decreases self.len - i,
            {
                if self.has_bit(i) {
                    fresh.set_bit(i);
                }
                i = i + 1;
            }
            *self = fresh;
        }
    }

    /// A copy with the same pieces.
    pub fn duplicate(&self) -> (r: Bitfield)
        ensures
            r@ == self@,
            r.wf() == self.wf(),
            r.bytes() == self.bytes(),
    {
        Bitfield { data: self.data.clone(), len: self.len }
    }
}

/// Two bitfields of one length over the same bytes hold the same pieces.
pub proof fn lemma_same_bytes(a: Bitfield, b: Bitfield)
    requires
        a.bytes() == b.bytes(),
        a@.len() == b@.len(),
    ensures
        a@ == b@,
{
    assert(a@ =~= b@);
}

} // verus!
