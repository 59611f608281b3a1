use vstd::prelude::*;
use vstd::utf8::{decode_utf8, encode_utf8, valid_utf8};

verus! {

broadcast use vstd::utf8::group_utf8_lib;

/// The four big-endian bytes of a 32-bit signed integer.
pub open spec fn int_bytes(v: i32) -> Seq<u8> {
    let u = v as u32;
    seq![(u >> 24u32) as u8, ((u >> 16u32) & 0xffu32) as u8, ((u >> 8u32) & 0xffu32) as u8, (u & 0xffu32) as u8]
}

/// The integer whose big-endian encoding starts `b`.
pub open spec fn int_of(b: Seq<u8>) -> i32 {
    ((((b[0] as u32) << 24u32) | ((b[1] as u32) << 16u32) | ((b[2] as u32) << 8u32) | (b[3] as u32)) as u32) as i32
}

/// The integer stored at `off` in `buf`.
pub open spec fn int_at(buf: Seq<u8>, off: int) -> i32 {
    int_of(buf.subrange(off, off + 4))
}

/// `buf` with the bytes from `off` on replaced by `bytes`.
pub open spec fn splice(buf: Seq<u8>, off: int, bytes: Seq<u8>) -> Seq<u8> {
    buf.subrange(0, off) + bytes + buf.subrange(off + bytes.len(), buf.len() as int)
}

/// The length-prefixed encoding of a byte sequence.
pub open spec fn length_prefixed(b: Seq<u8>) -> Seq<u8> {
    int_bytes(b.len() as i32) + b
}

/// A length-prefixed byte sequence starts at `off` and lies within `buf`.
pub open spec fn bytes_fit(buf: Seq<u8>, off: int) -> bool {
    &&& 0 <= off
    &&& off + 4 <= buf.len()
    &&& int_at(buf, off) >= 0
    &&& off + 4 + int_at(buf, off) <= buf.len()
}

/// The byte sequence stored with a length prefix at `off`.
pub open spec fn bytes_at(buf: Seq<u8>, off: int) -> Seq<u8> {
    buf.subrange(off + 4, off + 4 + int_at(buf, off))
}

/// The string stored at `off`: the decoded bytes, or empty when they are no valid UTF-8.
pub open spec fn string_at(buf: Seq<u8>, off: int) -> Seq<char> {
    if valid_utf8(bytes_at(buf, off)) {
        decode_utf8(bytes_at(buf, off))
    } else {
        Seq::empty()
    }
}

/// Decoding the encoding of an integer gives the integer back.
pub proof fn lemma_int_round_trip(v: i32)
    ensures
        int_of(int_bytes(v)) == v,
{
    let u = v as u32;
    assert(((((u >> 24u32) as u8) as u32) << 24u32 | ((((u >> 16u32) & 0xffu32) as u8) as u32) << 16u32
        | ((((u >> 8u32) & 0xffu32) as u8) as u32) << 8u32 | (((u & 0xffu32) as u8) as u32)) == u)
        by (bit_vector);
    assert((v as u32) as i32 == v) by (bit_vector);
}

/// Reading an integer where one was just stored gives that integer.
pub proof fn lemma_int_store_load(buf: Seq<u8>, off: int, v: i32)
    requires
        0 <= off,
        off + 4 <= buf.len(),
    ensures
        int_at(splice(buf, off, int_bytes(v)), off) == v,
{
    let after = splice(buf, off, int_bytes(v));
    assert(after.subrange(off, off + 4) =~= int_bytes(v));
    lemma_int_round_trip(v);
}

/// Reading a byte sequence where one was just stored gives that sequence.
pub proof fn lemma_bytes_store_load(buf: Seq<u8>, off: int, b: Seq<u8>)
    requires
        0 <= off,
        off + 4 + b.len() <= buf.len(),
        b.len() <= i32::MAX,
    ensures
        bytes_fit(splice(buf, off, length_prefixed(b)), off),
        bytes_at(splice(buf, off, length_prefixed(b)), off) == b,
{
    let after = splice(buf, off, length_prefixed(b));
    assert(after.subrange(off, off + 4) =~= int_bytes(b.len() as i32));
    lemma_int_round_trip(b.len() as i32);
    assert(bytes_at(after, off) =~= b);
}

/// Reading a string where one was just stored gives that string.
pub proof fn lemma_string_store_load(buf: Seq<u8>, off: int, s: Seq<char>)
    requires
        0 <= off,
        off + 4 + encode_utf8(s).len() <= buf.len(),
        encode_utf8(s).len() <= i32::MAX,
    ensures
        bytes_fit(splice(buf, off, length_prefixed(encode_utf8(s))), off),
        string_at(splice(buf, off, length_prefixed(encode_utf8(s))), off) == s,
{
    lemma_bytes_store_load(buf, off, encode_utf8(s));
}

/// A block-sized byte buffer with typed accessors at byte offsets.
pub struct Page {
    buffer: Vec<u8>,
}

impl View for Page {
    type V = Seq<u8>;

    closed spec fn view(&self) -> Seq<u8> {
        self.buffer@
    }
}

impl Page {
    /// A page of `block_size` zero bytes.
    pub fn new(block_size: usize) -> (r: Page)
        ensures
            r@ == Seq::new(block_size as nat, |i: int| 0u8),
    {
        let buffer = vec![0u8; block_size];
        assert(buffer@ =~= Seq::new(block_size as nat, |i: int| 0u8));
        Page { buffer }
    }

    /// A page holding exactly `bytes`.
    pub fn from_bytes(bytes: Vec<u8>) -> (r: Page)
        ensures
            r@ == bytes@,
    {
        Page { buffer: bytes }
    }

    pub fn get_int(&self, offset: usize) -> (r: i32)
        requires
            offset + 4 <= self@.len(),
        ensures
            r == int_at(self@, offset as int),
    {
        // The offsets below are bounded by the length, which fits a usize.
        let _len = self.buffer.len();
        let b0 = self.buffer[offset] as u32;
        let b1 = self.buffer[offset + 1] as u32;
        let b2 = self.buffer[offset + 2] as u32;
        let b3 = self.buffer[offset + 3] as u32;
        ((b0 << 24u32) | (b1 << 16u32) | (b2 << 8u32) | b3) as i32
    }

    pub fn set_int(&mut self, offset: usize, value: i32)
        requires
            offset + 4 <= old(self)@.len(),
        ensures
            final(self)@ == splice(old(self)@, offset as int, int_bytes(value)),
    {
        // The offsets below are bounded by the length, which fits a usize.
        let _len = self.buffer.len();
        let u = value as u32;
        self.buffer.set(offset, (u >> 24u32) as u8);
        self.buffer.set(offset + 1, ((u >> 16u32) & 0xffu32) as u8);
        self.buffer.set(offset + 2, ((u >> 8u32) & 0xffu32) as u8);
        self.buffer.set(offset + 3, (u & 0xffu32) as u8);
        assert(self@ =~= splice(old(self)@, offset as int, int_bytes(value)));
    }

    pub fn get_bytes(&self, offset: usize) -> (r: Vec<u8>)
        requires
            bytes_fit(self@, offset as int),
        ensures
            r@ == bytes_at(self@, offset as int),
    {
        let len = self.buffer.len();
        let length = self.get_int(offset) as usize;
        let start = offset + 4;
        let mut r: Vec<u8> = Vec::with_capacity(length);
        let mut i: usize = 0;
        while i < length
            invariant
                i <= length,
                length == int_at(self@, offset as int),
                start == offset + 4,
                start + length <= self@.len(),
                self@.len() == len,
                r@ =~= self@.subrange(start as int, start + i),
            decreases length - i,
        {
            r.push(self.buffer[start + i]);
            i += 1;
        }
        r
    }

    pub fn set_bytes(&mut self, offset: usize, bytes: &[u8])
        requires
            offset + 4 + bytes@.len() <= old(self)@.len(),
            bytes@.len() <= i32::MAX,
        ensures
            final(self)@ == splice(old(self)@, offset as int, length_prefixed(bytes@)),
    {
        let ghost before = self@;
        let len = self.buffer.len();
        let n = bytes.len();
        self.set_int(offset, n as i32);
        let ghost mid = self@;
        let start = offset + 4;
        let mut i: usize = 0;
        while i < n
            invariant
                i <= n,
                n == bytes@.len(),
                start == offset + 4,
                start + n <= mid.len(),
                mid.len() == len,
                mid == splice(before, offset as int, int_bytes(n as i32)),
                self@.len() == mid.len(),
                forall|k: int|
                    0 <= k < mid.len() && !(start <= k < start + i) ==> self@[k] == mid[k],
                forall|k: int| start <= k < start + i ==> self@[k] == bytes@[k - start],
            decreases n - i,
        {
            self.buffer.set(start + i, bytes[i]);
            i += 1;
        }
        let ghost want = splice(before, offset as int, length_prefixed(bytes@));
        assert forall|k: int| 0 <= k < self@.len() implies self@[k] == want[k] by {
            if start <= k < start + n {
                assert(want[k] == bytes@[k - start]);
            } else {
                assert(self@[k] == mid[k]);
            }
        }
        assert(self@ =~= want);
    }

    pub fn get_string(&self, offset: usize) -> (r: String)
        requires
            bytes_fit(self@, offset as int),
        ensures
            r@ == string_at(self@, offset as int),
    {
        let bytes = self.get_bytes(offset);
        match string_from_utf8(bytes) {
            Some(s) => s,
            None => String::new(),
        }
    }

    pub fn set_string(&mut self, offset: usize, s: &str)
        requires
            offset + 4 + encode_utf8(s@).len() <= old(self)@.len(),
            encode_utf8(s@).len() <= i32::MAX,
        ensures
            final(self)@ == splice(old(self)@, offset as int, length_prefixed(encode_utf8(s@))),
    {
        self.set_bytes(offset, s.as_bytes());
    }

    /// The most bytes a string of `strlen` characters takes with its length prefix.
    pub fn max_length(strlen: usize) -> (r: usize)
        requires
            4 + 4 * strlen <= usize::MAX,
        ensures
            r == 4 + 4 * strlen,
    {
        4 + strlen * 4
    }

    /// The page's bytes.
    pub fn contents(&self) -> (r: &[u8])
        ensures
            r@ == self@,
    {
        self.buffer.as_slice()
    }

    pub fn length(&self) -> (r: usize)
        ensures
            r == self@.len(),
    {
        self.buffer.len()
    }
}

/// Relies on String::from_utf8: it accepts exactly the valid UTF-8 byte
/// sequences and decodes them.
#[verifier::external_body]
fn string_from_utf8(bytes: Vec<u8>) -> (r: Option<String>)
    ensures
        r is Some <==> valid_utf8(bytes@),
        r is Some ==> r->Some_0@ == decode_utf8(bytes@),
{
    String::from_utf8(bytes).ok()
}

} // verus!
