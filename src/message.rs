//! Peer wire messages and their framing.
//!
//! A frame is a 4-byte big-endian length followed by that many payload
//! bytes; an empty payload is a keep-alive, else the first payload byte is
//! the message tag.  The handshake is the one unframed message.
use vstd::prelude::*;
use crate::bitfield::{Bitfield, lemma_same_bytes};

verus! {

#[derive(Clone, Debug, PartialEq, Eq)]
pub enum Message {
    Handshake { rsv: Vec<u8>, hash: Vec<u8>, id: Vec<u8> },
    KeepAlive,
    Choke,
    Unchoke,
    Interested,
    Uninterested,
    Have(u32),
    Bitfield(Bitfield),
    Request { index: u32, begin: u32, length: u32 },
    Piece { index: u32, begin: u32, length: u32, data: Vec<u8> },
    /// A block that is also queued for other peers; on the wire it is a
    /// `Piece`.
    SharedPiece { index: u32, begin: u32, length: u32, data: Vec<u8> },
    Cancel { index: u32, begin: u32, length: u32 },
    Port(u16),
}

/// `x` as four big-endian bytes.
pub open spec fn be32(x: u32) -> Seq<u8> {
    seq![(x >> 24u32) as u8, (x >> 16u32) as u8, (x >> 8u32) as u8, x as u8]
}

/// `x` as two big-endian bytes.
pub open spec fn be16(x: u16) -> Seq<u8> {
    seq![(x >> 8u16) as u8, x as u8]
}

/// The big-endian `u32` at `at` in `s`.
pub open spec fn read32(s: Seq<u8>, at: int) -> u32 {
    ((s[at] as u32) << 24u32) | ((s[at + 1] as u32) << 16u32) | ((s[at + 2] as u32) << 8u32) | (s[at
        + 3] as u32)
}

/// The big-endian `u16` at `at` in `s`.
pub open spec fn read16(s: Seq<u8>, at: int) -> u16 {
    ((s[at] as u16) << 8u16) | (s[at + 1] as u16)
}

/// The protocol name that opens a handshake.
pub open spec fn protocol_name() -> Seq<u8> {
    seq![66u8, 105, 116, 84, 111, 114, 114, 101, 110, 116, 32, 112, 114, 111, 116, 111, 99, 111, 108]
}

/// Length of the handshake.
pub const HANDSHAKE_LEN: usize = 68;

/// Whether the payload length `len` fits message tag `tag`.
pub open spec fn tag_fits(tag: u8, len: int) -> bool {
    if tag <= 3 {
        len == 1
    } else if tag == 4 {
        len == 5
    } else if tag == 5 {
        len >= 1
    } else if tag == 6 || tag == 8 {
        len == 13
    } else if tag == 7 {
        len >= 9
    } else if tag == 9 {
        len == 3
    } else {
        false
    }
}

/// Whether `buf` is exactly one frame of a known message.
pub open spec fn framed(buf: Seq<u8>) -> bool {
    &&& buf.len() >= 4
    &&& buf.len() == 4 + read32(buf, 0)
    &&& read32(buf, 0) == 0 || tag_fits(buf[4], read32(buf, 0) as int)
}

/// Whether `buf` is a handshake.
pub open spec fn is_handshake(buf: Seq<u8>) -> bool {
    &&& buf.len() == HANDSHAKE_LEN
    &&& buf[0] == 19u8
    &&& buf.subrange(1, 20) == protocol_name()
}

proof fn lemma_read_be32(x: u32)
    ensures
        read32(be32(x), 0) == x,
{
    assert(((((x >> 24u32) as u8) as u32) << 24u32) | ((((x >> 16u32) as u8) as u32) << 16u32) | ((((x
        >> 8u32) as u8) as u32) << 8u32) | ((x as u8) as u32) == x) by (bit_vector);
}

proof fn lemma_be32_read(s: Seq<u8>, at: int)
    requires
        0 <= at,
        at + 4 <= s.len(),
    ensures
        be32(read32(s, at)) == s.subrange(at, at + 4),
{
    let (a, b, c, d) = (s[at], s[at + 1], s[at + 2], s[at + 3]);
    let x = ((a as u32) << 24u32) | ((b as u32) << 16u32) | ((c as u32) << 8u32) | (d as u32);
    assert((x >> 24u32) as u8 == a && (x >> 16u32) as u8 == b && (x >> 8u32) as u8 == c && x as u8 == d)
        by (bit_vector)
        requires
            x == ((a as u32) << 24u32) | ((b as u32) << 16u32) | ((c as u32) << 8u32) | (d as u32),
    ;
    assert(be32(read32(s, at)) =~= s.subrange(at, at + 4));
}

proof fn lemma_read_be16(x: u16)
    ensures
        read16(be16(x), 0) == x,
{
    assert(((((x >> 8u16) as u8) as u16) << 8u16) | ((x as u8) as u16) == x) by (bit_vector);
}

proof fn lemma_be16_read(s: Seq<u8>, at: int)
    requires
        0 <= at,
        at + 2 <= s.len(),
    ensures
        be16(read16(s, at)) == s.subrange(at, at + 2),
{
    let (a, b) = (s[at], s[at + 1]);
    let x = ((a as u16) << 8u16) | (b as u16);
    assert((x >> 8u16) as u8 == a && x as u8 == b) by (bit_vector)
        requires
            x == ((a as u16) << 8u16) | (b as u16),
    ;
    assert(be16(read16(s, at)) =~= s.subrange(at, at + 2));
}

impl Message {
    /// The bytes of this message on the wire: a frame, or the handshake.
    pub open spec fn wire(&self) -> Seq<u8> {
        match self {
            Message::Handshake { rsv, hash, id } => seq![19u8] + protocol_name() + rsv@ + hash@ + id@,
            Message::KeepAlive => be32(0),
            Message::Choke => be32(1) + seq![0u8],
            Message::Unchoke => be32(1) + seq![1u8],
            Message::Interested => be32(1) + seq![2u8],
            Message::Uninterested => be32(1) + seq![3u8],
            Message::Have(i) => be32(5) + seq![4u8] + be32(*i),
            Message::Bitfield(bf) => be32((1 + bf.bytes().len()) as u32) + seq![5u8] + bf.bytes(),
            Message::Request { index, begin, length } => be32(13) + seq![6u8] + be32(*index) + be32(*begin)
                + be32(*length),
            Message::Piece { index, begin, data, .. } => be32((9 + data@.len()) as u32) + seq![7u8] + be32(
                *index,
            ) + be32(*begin) + data@,
            Message::SharedPiece { index, begin, data, .. } => be32((9 + data@.len()) as u32) + seq![7u8]
                + be32(*index) + be32(*begin) + data@,
            Message::Cancel { index, begin, length } => be32(13) + seq![8u8] + be32(*index) + be32(*begin)
                + be32(*length),
            Message::Port(p) => be32(3) + seq![9u8] + be16(*p),
        }
    }

    /// This message can be written: its sizes fit the frame, a block's
    /// length is its data's, and handshake fields have their sizes.
    pub open spec fn encodable(&self) -> bool {
        match self {
            Message::Handshake { rsv, hash, id } => rsv@.len() == 8 && hash@.len() == 20 && id@.len() == 20,
            Message::Bitfield(bf) => bf.wf() && 1 + bf.bytes().len() <= u32::MAX,
            Message::Piece { length, data, .. } => data@.len() == *length && 9 + data@.len() <= u32::MAX,
            Message::SharedPiece { length, data, .. } => data@.len() == *length && 9 + data@.len() <= u32::MAX,
            _ => true,
        }
    }

    /// The shape of a message read from a frame: never a handshake or a
    /// shared block, a block's length is its data's, and a bitfield has
    /// eight pieces per byte.
    pub open spec fn decoded_form(&self) -> bool {
        match self {
            Message::Handshake { .. } => false,
            Message::SharedPiece { .. } => false,
            Message::Piece { length, data, .. } => data@.len() == *length,
            Message::Bitfield(bf) => bf.wf() && bf@.len() == 8 * bf.bytes().len(),
            _ => true,
        }
    }

    /// `self` and `o` are the same message.
    pub open spec fn same(&self, o: &Message) -> bool {
        match (self, o) {
            (Message::Handshake { rsv: a, hash: b, id: c }, Message::Handshake { rsv: x, hash: y, id: z }) =>
                a@ == x@ && b@ == y@ && c@ == z@,
            (Message::KeepAlive, Message::KeepAlive) => true,
            (Message::Choke, Message::Choke) => true,
            (Message::Unchoke, Message::Unchoke) => true,
            (Message::Interested, Message::Interested) => true,
            (Message::Uninterested, Message::Uninterested) => true,
            (Message::Have(a), Message::Have(x)) => a == x,
            (Message::Bitfield(a), Message::Bitfield(x)) => a@ == x@ && a.bytes() == x.bytes(),
            (
                Message::Request { index: a, begin: b, length: c },
                Message::Request { index: x, begin: y, length: z },
            ) => a == x && b == y && c == z,
            (
                Message::Piece { index: a, begin: b, length: c, data: d },
                Message::Piece { index: x, begin: y, length: z, data: w },
            ) => a == x && b == y && c == z && d@ == w@,
            (
                Message::SharedPiece { index: a, begin: b, length: c, data: d },
                Message::SharedPiece { index: x, begin: y, length: z, data: w },
            ) => a == x && b == y && c == z && d@ == w@,
            (
                Message::Cancel { index: a, begin: b, length: c },
                Message::Cancel { index: x, begin: y, length: z },
            ) => a == x && b == y && c == z,
            (Message::Port(a), Message::Port(x)) => a == x,
            _ => false,
        }
    }

    /// What `decode` returns on `buf`: a message exactly when `buf` is one
    /// frame of a known message, and then the message whose frame it is.
    pub open spec fn decode_rel(buf: Seq<u8>, r: Option<Message>) -> bool {
        &&& r is Some <==> framed(buf)
        &&& r matches Some(m) ==> m.wire() == buf && m.decoded_form() && m.wf()
    }

    /// A held bitfield is well formed.
    pub open spec fn wf(&self) -> bool {
        match self {
            Message::Bitfield(bf) => bf.wf(),
            _ => true,
        }
    }

    /// A `Request` message.
    pub fn request(index: u32, begin: u32, length: u32) -> (r: Message)
        ensures
            r == (Message::Request { index, begin, length }),
    {
        Message::Request { index, begin, length }
    }
}

proof fn lemma_read_at(s: Seq<u8>, at: int, x: u32)
    requires
        0 <= at,
        at + 4 <= s.len(),
        s.subrange(at, at + 4) == be32(x),
    ensures
        read32(s, at) == x,
{
    lemma_read_be32(x);
    assert(s[at] == s.subrange(at, at + 4)[0]);
    assert(s[at + 1] == s.subrange(at, at + 4)[1]);
    assert(s[at + 2] == s.subrange(at, at + 4)[2]);
    assert(s[at + 3] == s.subrange(at, at + 4)[3]);
}

proof fn lemma_read16_at(s: Seq<u8>, at: int, x: u16)
    requires
        0 <= at,
        at + 2 <= s.len(),
        s.subrange(at, at + 2) == be16(x),
    ensures
        read16(s, at) == x,
{
    lemma_read_be16(x);
    assert(s[at] == s.subrange(at, at + 2)[0]);
    assert(s[at + 1] == s.subrange(at, at + 2)[1]);
}

fn push_u32(out: &mut Vec<u8>, x: u32)
    ensures
        final(out)@ == old(out)@ + be32(x),
{
    out.push((x >> 24u32) as u8);
    out.push((x >> 16u32) as u8);
    out.push((x >> 8u32) as u8);
    out.push(x as u8);
    assert(out@ =~= old(out)@ + be32(x));
}

fn push_u16(out: &mut Vec<u8>, x: u16)
    ensures
        final(out)@ == old(out)@ + be16(x),
{
    out.push((x >> 8u16) as u8);
    out.push(x as u8);
    assert(out@ =~= old(out)@ + be16(x));
}

fn push_all(out: &mut Vec<u8>, src: &Vec<u8>)
    ensures
        final(out)@ == old(out)@ + src@,
{
    let mut i: usize = 0;
    while i < src.len()
        invariant
            i <= src@.len(),
            out@ == old(out)@ + src@.subrange(0, i as int),
        decreases src.len() - i,
    {
        out.push(src[i]);
        i = i + 1;
        assert(out@ =~= old(out)@ + src@.subrange(0, i as int));
    }
    assert(src@.subrange(0, i as int) =~= src@);
}

fn read_u32(buf: &[u8], at: usize) -> (r: u32)
    requires
        at + 4 <= buf@.len(),
    ensures
        r == read32(buf@, at as int),
{
    ((buf[at] as u32) << 24u32) | ((buf[at + 1] as u32) << 16u32) | ((buf[at + 2] as u32) << 8u32) | (buf[at
        + 3] as u32)
}

fn read_u16(buf: &[u8], at: usize) -> (r: u16)
    requires
        at + 2 <= buf@.len(),
    ensures
        r == read16(buf@, at as int),
{
    ((buf[at] as u16) << 8u16) | (buf[at + 1] as u16)
}

fn copy_from(buf: &[u8], from: usize) -> (r: Vec<u8>)
    requires
        from <= buf@.len(),
    ensures
        r@ == buf@.subrange(from as int, buf@.len() as int),
{
    let mut out: Vec<u8> = Vec::new();
    let mut i: usize = from;
    while i < buf.len()
        invariant
            from <= i <= buf@.len(),
            out@ == buf@.subrange(from as int, i as int),
        decreases buf.len() - i,
    {
        out.push(buf[i]);
        i = i + 1;
        assert(out@ =~= buf@.subrange(from as int, i as int));
    }
    out
}

fn protocol_name_bytes() -> (r: Vec<u8>)
    ensures
        r@ == protocol_name(),
{
    let r: Vec<u8> = vec![66u8, 105, 116, 84, 111, 114, 114, 101, 110, 116, 32, 112, 114, 111, 116, 111, 99, 111, 108];
    assert(r@ =~= protocol_name());
    r
}

impl Message {
    /// The handshake that opens a connection.
    pub fn handshake(rsv: Vec<u8>, hash: Vec<u8>, id: Vec<u8>) -> (r: Message)
        ensures
            r matches Message::Handshake { rsv: a, hash: b, id: c } && a@ == rsv@ && b@ == hash@ && c@ == id@,
    {
        Message::Handshake { rsv, hash, id }
    }

    /// Whether this message can be written (see `encodable`).
    pub fn can_encode(&self) -> (r: bool)
        ensures
            r == self.encodable(),
    {
        match self {
            Message::Handshake { rsv, hash, id } => rsv.len() == 8 && hash.len() == 20 && id.len() == 20,
            Message::Bitfield(bf) => bf.is_wf() && bf.as_bytes().len() < 0xffff_ffffusize,
            Message::Piece { length, data, .. } | Message::SharedPiece { length, data, .. } => {
                data.len() as u64 == *length as u64 && data.len() <= 0xffff_fff6usize
            },
            _ => true,
        }
    }

    /// The bytes of this message on the wire.
    pub fn encode(&self) -> (r: Vec<u8>)
        requires
            self.encodable(),
        ensures
            r@ == self.wire(),
    {
        let mut out: Vec<u8> = Vec::new();
        match self {
            Message::Handshake { rsv, hash, id } => {
                out.push(19u8);
                let name = protocol_name_bytes();
                push_all(&mut out, &name);
                push_all(&mut out, rsv);
                push_all(&mut out, hash);
                push_all(&mut out, id);
            },
            Message::KeepAlive => {
                push_u32(&mut out, 0);
            },
            Message::Choke => {
                push_u32(&mut out, 1);
                out.push(0u8);
            },
            Message::Unchoke => {
                push_u32(&mut out, 1);
                out.push(1u8);
            },
            Message::Interested => {
                push_u32(&mut out, 1);
                out.push(2u8);
            },
            Message::Uninterested => {
                push_u32(&mut out, 1);
                out.push(3u8);
            },
            Message::Have(i) => {
                push_u32(&mut out, 5);
                out.push(4u8);
                push_u32(&mut out, *i);
            },
            Message::Bitfield(bf) => {
                let bytes = bf.as_bytes();
                push_u32(&mut out, (1 + bytes.len()) as u32);
                out.push(5u8);
                push_all(&mut out, bytes);
            },
            Message::Request { index, begin, length } => {
                push_u32(&mut out, 13);
                out.push(6u8);
                push_u32(&mut out, *index);
                push_u32(&mut out, *begin);
                push_u32(&mut out, *length);
            },
            Message::Piece { index, begin, data, .. } | Message::SharedPiece { index, begin, data, .. } => {
                push_u32(&mut out, (9 + data.len()) as u32);
                out.push(7u8);
                push_u32(&mut out, *index);
                push_u32(&mut out, *begin);
                push_all(&mut out, data);
            },
            Message::Cancel { index, begin, length } => {
                push_u32(&mut out, 13);
                out.push(8u8);
                push_u32(&mut out, *index);
                push_u32(&mut out, *begin);
                push_u32(&mut out, *length);
            },
            Message::Port(p) => {
                push_u32(&mut out, 3);
                out.push(9u8);
                push_u16(&mut out, *p);
            },
        }
        assert(out@ =~= self.wire());
        out
    }
}

impl Message {
    /// Reads one frame: a message exactly when `buf` is a whole frame of a
    /// known message.
    #[verifier::rlimit(40)]
    pub fn decode(buf: &[u8]) -> (r: Option<Message>)
        ensures
            Message::decode_rel(buf@, r),
    {
        let n: usize = buf.len();
        if n < 4 {
            return None;
        }
        let l: u32 = read_u32(buf, 0);
        if (n - 4) as u64 != l as u64 {
            return None;
        }
        proof {
            lemma_be32_read(buf@, 0);
        }
        if l == 0 {
            proof {
                assert(buf@ =~= be32(0));
            }
            return Some(Message::KeepAlive);
        }
        let tag: u8 = buf[4];
        if tag <= 3 {
            if l != 1 {
                return None;
            }
            let m = if tag == 0 {
                Message::Choke
            } else if tag == 1 {
                Message::Unchoke
            } else if tag == 2 {
                Message::Interested
            } else {
                Message::Uninterested
            };
            proof {
                assert(buf@ =~= be32(1) + seq![tag]);
            }
            Some(m)
        } else if tag == 4 {
            if l != 5 {
                return None;
            }
            let i = read_u32(buf, 5);
            proof {
                lemma_be32_read(buf@, 5);
                assert(buf@ =~= be32(5) + seq![4u8] + be32(i));
            }
            Some(Message::Have(i))
        } else if tag == 5 {
            let bytes = copy_from(buf, 5);
            let bf = Bitfield::from_bytes(bytes);
            proof {
                assert(buf@ =~= be32(l) + seq![5u8] + bf.bytes());
            }
            Some(Message::Bitfield(bf))
        } else if tag == 6 || tag == 8 {
            if l != 13 {
                return None;
            }
            let index = read_u32(buf, 5);
            let begin = read_u32(buf, 9);
            let length = read_u32(buf, 13);
            proof {
                lemma_be32_read(buf@, 5);
                lemma_be32_read(buf@, 9);
                lemma_be32_read(buf@, 13);
                assert(buf@ =~= be32(13) + seq![tag] + be32(index) + be32(begin) + be32(length));
            }
            if tag == 6 {
                Some(Message::Request { index, begin, length })
            } else {
                Some(Message::Cancel { index, begin, length })
            }
        } else if tag == 7 {
            if l < 9 {
                return None;
            }
            let index = read_u32(buf, 5);
            let begin = read_u32(buf, 9);
            let data = copy_from(buf, 13);
            proof {
                lemma_be32_read(buf@, 5);
                lemma_be32_read(buf@, 9);
                assert(buf@ =~= be32(l) + seq![7u8] + be32(index) + be32(begin) + data@);
            }
            Some(Message::Piece { index, begin, length: l - 9, data })
        } else if tag == 9 {
            if l != 3 {
                return None;
            }
            let p = read_u16(buf, 5);
            proof {
                lemma_be16_read(buf@, 5);
                assert(buf@ =~= be32(3) + seq![9u8] + be16(p));
            }
            Some(Message::Port(p))
        } else {
            None
        }
    }

    /// Reads a handshake: a message exactly when `buf` is one.
    pub fn decode_handshake(buf: &[u8]) -> (r: Option<Message>)
        ensures
            r is Some <==> is_handshake(buf@),
            r matches Some(m) ==> m.wire() == buf@ && m.encodable() && m is Handshake,
    {
        if buf.len() != HANDSHAKE_LEN || buf[0] != 19u8 {
            return None;
        }
        let name = protocol_name_bytes();
        let mut i: usize = 0;
        while i < 19
            invariant
                buf@.len() == HANDSHAKE_LEN,
                name@ == protocol_name(),
                i <= 19,
                forall|k: int| 0 <= k < i ==> buf@[1 + k] == name@[k],
            decreases 19 - i,
        {
            if buf[1 + i] != name[i] {
                proof {
                    assert(buf@.subrange(1, 20)[i as int] != protocol_name()[i as int]);
                }
                return None;
            }
            i = i + 1;
        }
        proof {
            assert(buf@.subrange(1, 20) =~= protocol_name());
        }
        let all = copy_from(buf, 20);
        let rsv = copy_prefix(&all, 0, 8);
        let hash = copy_prefix(&all, 8, 28);
        let id = copy_prefix(&all, 28, 48);
        proof {
            assert(buf@ =~= seq![19u8] + protocol_name() + rsv@ + hash@ + id@);
        }
        Some(Message::Handshake { rsv, hash, id })
    }
}

fn copy_prefix(v: &Vec<u8>, from: usize, to: usize) -> (r: Vec<u8>)
    requires
        from <= to <= v@.len(),
    ensures
        r@ == v@.subrange(from as int, to as int),
{
    let mut out: Vec<u8> = Vec::new();
    let mut i: usize = from;
    while i < to
        invariant
            from <= i <= to,
            to <= v@.len(),
            out@ == v@.subrange(from as int, i as int),
        decreases to - i,
    {
        out.push(v[i]);
        i = i + 1;
        assert(out@ =~= v@.subrange(from as int, i as int));
    }
    out
}

proof fn lemma_frame_head(m: Message)
    requires
        m.encodable(),
        m.decoded_form(),
    ensures
        m.wire().len() >= 4,
        read32(m.wire(), 0) == m.wire().len() - 4,
        m.wire().len() > 4 ==> tag_fits(m.wire()[4], m.wire().len() - 4),
        m is KeepAlive <==> m.wire().len() == 4,
        framed(m.wire()),
{
    let w = m.wire();
    let l: u32 = (w.len() - 4) as u32;
    assert(w.subrange(0, 4) =~= be32(l));
    lemma_read_at(w, 0, l);
}

/// Reading back the frame of a message gives the same message, for every
/// message that has the shape of one read from a frame (a shared block is
/// read back as a plain `Piece`, and a bitfield as whole bytes).
pub proof fn lemma_round_trip(m: Message, d: Option<Message>)
    requires
        m.encodable(),
        m.decoded_form(),
        Message::decode_rel(m.wire(), d),
    ensures
        d matches Some(x) && x.same(&m),
{
    lemma_frame_head(m);
    let x = d->Some_0;
    lemma_frame_head(x);
    let w = m.wire();
    match m {
        Message::Have(i) => {
            assert(w.subrange(5, 9) =~= be32(i));
            lemma_read_at(w, 5, i);
            if let Message::Have(j) = x {
                assert(x.wire().subrange(5, 9) =~= be32(j));
                lemma_read_at(x.wire(), 5, j);
            }
        },
        Message::Request { index, begin, length } | Message::Cancel { index, begin, length } => {
            assert(w.subrange(5, 9) =~= be32(index));
            assert(w.subrange(9, 13) =~= be32(begin));
            assert(w.subrange(13, 17) =~= be32(length));
            lemma_read_at(w, 5, index);
            lemma_read_at(w, 9, begin);
            lemma_read_at(w, 13, length);
            match x {
                Message::Request { index: a, begin: b, length: c } | Message::Cancel { index: a, begin: b, length: c } => {
                    assert(x.wire().subrange(5, 9) =~= be32(a));
                    assert(x.wire().subrange(9, 13) =~= be32(b));
                    assert(x.wire().subrange(13, 17) =~= be32(c));
                    lemma_read_at(x.wire(), 5, a);
                    lemma_read_at(x.wire(), 9, b);
                    lemma_read_at(x.wire(), 13, c);
                },
                _ => {},
            }
        },
        Message::Piece { index, begin, data, .. } => {
            assert(w.subrange(5, 9) =~= be32(index));
            assert(w.subrange(9, 13) =~= be32(begin));
            assert(w.subrange(13, w.len() as int) =~= data@);
            lemma_read_at(w, 5, index);
            lemma_read_at(w, 9, begin);
            if let Message::Piece { index: a, begin: b, data: e, .. } = x {
                assert(x.wire().subrange(5, 9) =~= be32(a));
                assert(x.wire().subrange(9, 13) =~= be32(b));
                assert(x.wire().subrange(13, w.len() as int) =~= e@);
                lemma_read_at(x.wire(), 5, a);
                lemma_read_at(x.wire(), 9, b);
            }
        },
        Message::Bitfield(bf) => {
            assert(w.subrange(5, w.len() as int) =~= bf.bytes());
            if let Message::Bitfield(bg) = x {
                assert(x.wire().subrange(5, w.len() as int) =~= bg.bytes());
                lemma_same_bytes(bg, bf);
            }
        },
        Message::Port(p) => {
            assert(w.subrange(5, 7) =~= be16(p));
            lemma_read16_at(w, 5, p);
            if let Message::Port(q) = x {
                assert(x.wire().subrange(5, 7) =~= be16(q));
                lemma_read16_at(x.wire(), 5, q);
            }
        },
        _ => {},
    }
}

/// Reading back the bytes of a handshake gives the same handshake.
pub proof fn lemma_handshake_round_trip(m: Message, d: Option<Message>)
    requires
        m is Handshake,
        m.encodable(),
        d is Some <==> is_handshake(m.wire()),
        d matches Some(x) ==> x.wire() == m.wire() && x.encodable() && x is Handshake,
    ensures
        d matches Some(x) && x.same(&m),
{
    let w = m.wire();
    if let Message::Handshake { rsv, hash, id } = m {
        assert(w.subrange(1, 20) =~= protocol_name());
        let x = d->Some_0;
        if let Message::Handshake { rsv: a, hash: b, id: c } = x {
            assert(w.subrange(20, 28) =~= rsv@);
            assert(w.subrange(20, 28) =~= a@);
            assert(w.subrange(28, 48) =~= hash@);
            assert(w.subrange(28, 48) =~= b@);
            assert(w.subrange(48, 68) =~= id@);
            assert(w.subrange(48, 68) =~= c@);
        }
    }
}

} // verus!
