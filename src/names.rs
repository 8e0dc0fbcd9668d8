use vstd::prelude::*;
use std::collections::HashMap;

verus! {

broadcast use vstd::std_specs::hash::group_hash_axioms;

/// Bits of a name id that select the byte offset inside a block.
pub const FNAME_BLOCK_OFFSET_BITS: u32 = 16;

/// Number of offsets in one block of the name pool.
pub const FNAME_BLOCK_OFFSETS: u32 = 65536;

/// Header of a name-pool entry: bit 0 is the wide flag, bits 6 and up the
/// length in characters.
#[derive(Debug, Clone, Copy, PartialEq, Eq, Structural)]
pub struct FNameEntryHeader {
    pub value: u16,
}

impl FNameEntryHeader {
    pub open spec fn spec_is_wide(&self) -> bool {
        self.value % 2 == 1
    }

    pub open spec fn spec_len(&self) -> nat {
        (self.value / 64) as nat
    }

    /// Whether the characters are two bytes wide.
    pub fn is_wide(&self) -> (r: bool)
        ensures
            r == self.spec_is_wide(),
    {
        self.value % 2 == 1
    }

    /// Whether the characters are one byte wide.
    pub fn is_ansi(&self) -> (r: bool)
        ensures
            r == !self.spec_is_wide(),
    {
        !self.is_wide()
    }

    /// Length in characters.
    pub fn len(&self) -> (r: usize)
        ensures
            r == self.spec_len(),
    {
        (self.value / 64) as usize
    }

    pub fn is_empty(&self) -> (r: bool)
        ensures
            r == (self.spec_len() == 0),
    {
        self.len() == 0
    }
}

/// An entry of the name pool, as its header describes it.
#[derive(Debug, Clone, Copy, PartialEq, Eq, Structural)]
pub struct FNameEntry {
    pub header: FNameEntryHeader,
}

/// `n` rounded up to a multiple of `stride`, which is 1 or 2.
pub open spec fn padded(n: nat, stride: int) -> nat {
    if stride == 2 && n % 2 == 1 { n + 1 } else { n }
}

/// Bytes of an entry's characters.
pub open spec fn payload_len(h: FNameEntryHeader) -> nat {
    if h.spec_is_wide() { 2 * h.spec_len() } else { h.spec_len() }
}

impl FNameEntry {
    /// Bytes that the entry's characters take, padded to the pool's stride.
    pub fn size_in_bytes(&self, stride: usize) -> (r: usize)
        requires
            stride == 1 || stride == 2,
        ensures
            r == padded(payload_len(self.header), stride as int),
    {
        let n = self.header.len();
        let unaligned = if self.header.is_wide() { 2 * n } else { n };
        if stride == 2 && unaligned % 2 == 1 {
            unaligned + 1
        } else {
            unaligned
        }
    }
}

/// Block and offset of a name id.
#[derive(Debug, Clone, Copy, PartialEq, Eq, Structural)]
pub struct FNameEntryHandle {
    pub block: u32,
    pub offset: u32,
}

impl FNameEntryHandle {
    /// Splits an id: the high bits give the block, the low sixteen the offset.
    pub fn from_id(id: u32) -> (r: FNameEntryHandle)
        ensures
            r.block == id / 65536,
            r.offset == id % 65536,
    {
        FNameEntryHandle { block: id / FNAME_BLOCK_OFFSETS, offset: id % FNAME_BLOCK_OFFSETS }
    }

    /// The id of this block and offset.
    pub fn to_id(&self) -> (r: u32)
        requires
            self.block < 65536,
            self.offset < 65536,
        ensures
            r == self.block * 65536 + self.offset,
    {
        self.block * FNAME_BLOCK_OFFSETS + self.offset
    }
}

/// The text of one-byte characters, as a lossy UTF-8 decoding gives it.
pub uninterp spec fn ansi_text(b: Seq<u8>) -> Seq<char>;

/// The text of two-byte characters, as a lossy UTF-16 decoding gives it.
pub uninterp spec fn wide_text(u: Seq<u16>) -> Seq<char>;

/// Relies on `String::from_utf8_lossy`: its result depends on the bytes alone.
#[verifier::external_body]
fn decode_ansi(b: &[u8]) -> (r: String)
    ensures
        r@ == ansi_text(b@),
        b@.len() == 0 ==> r@.len() == 0,
{
    String::from_utf8_lossy(b).into_owned()
}

/// Relies on `String::from_utf16_lossy`: its result depends on the units alone.
#[verifier::external_body]
fn decode_wide(u: &[u16]) -> (r: String)
    ensures
        r@ == wide_text(u@),
        u@.len() == 0 ==> r@.len() == 0,
{
    String::from_utf16_lossy(u)
}

/// Little-endian 16-bit value at `i`.
pub open spec fn u16_at(b: Seq<u8>, i: int) -> u16 {
    (b[i] as int + 256 * b[i + 1] as int) as u16
}

/// Little-endian 16-bit units of `b`.
pub open spec fn units_of(b: Seq<u8>) -> Seq<u16> {
    Seq::new(b.len() / 2, |k: int| u16_at(b, 2 * k))
}

/// One decoded entry: its id and its text.
pub open spec fn entry_text(b: Seq<u8>, off: int, h: FNameEntryHeader) -> Seq<char> {
    let data = b.subrange(off + 2, off + 2 + payload_len(h));
    if h.spec_is_wide() { wide_text(units_of(data)) } else { ansi_text(data) }
}

/// The entries of a block read from byte `off` up to `end`: each is a
/// two-byte header and its characters padded to `stride`; an entry whose
/// characters run past `end` ends the block.
pub open spec fn block_entries(b: Seq<u8>, off: int, end: int, stride: int, block: int) -> Seq<
    (u32, Seq<char>),
>
    decreases end + 1 - off,
{
    if off < 0 || off + 2 > end || end > b.len() || !(stride == 1 || stride == 2) {
        Seq::empty()
    } else {
        let h = FNameEntryHeader { value: u16_at(b, off) };
        if off + 2 + payload_len(h) > end {
            Seq::empty()
        } else {
            let id = (block * 65536 + off / stride) as u32;
            let next = off + 2 + padded(payload_len(h), stride) as int;
            let rest = block_entries(b, next, end, stride, block);
            seq![(id, entry_text(b, off, h))] + rest
        }
    }
}

fn copy_bytes(b: &Vec<u8>, lo: usize, hi: usize) -> (r: Vec<u8>)
    requires
        lo <= hi <= b@.len(),
    ensures
        r@ == b@.subrange(lo as int, hi as int),
{
    let mut out: Vec<u8> = Vec::new();
    let mut i: usize = lo;
    while i < hi
        invariant
            lo <= i <= hi <= b@.len(),
            out@ =~= b@.subrange(lo as int, i as int),
        decreases hi - i,
    {
        out.push(b[i]);
        i = i + 1;
        assert(out@ =~= b@.subrange(lo as int, i as int));
    }
    out
}

fn units(b: &Vec<u8>) -> (r: Vec<u16>)
    ensures
        r@ == units_of(b@),
{
    let mut out: Vec<u16> = Vec::new();
    let mut k: usize = 0;
    while k < b.len() / 2
        invariant
            0 <= k <= b@.len() / 2,
            out@ =~= units_of(b@).take(k as int),
        decreases b@.len() / 2 - k,
    {
        let v: u16 = (b[2 * k] as u16) + 256 * (b[2 * k + 1] as u16);
        out.push(v);
        k = k + 1;
        assert(out@ =~= units_of(b@).take(k as int));
    }
    assert(units_of(b@).take(k as int) =~= units_of(b@));
    out
}

/// Decodes the entries of one block of the name pool, valid up to `end`:
/// each gets the id `block << 16 | offset / stride`.
pub fn parse_block(bytes: &Vec<u8>, end: usize, stride: usize, block: u32) -> (r: Vec<(u32, String)>)
    requires
        end <= bytes@.len(),
        stride == 1 || stride == 2,
        end <= stride * 65536,
        block < 65536,
    ensures
        r@.map_values(|e: (u32, String)| (e.0, e.1@)) == block_entries(
            bytes@,
            0,
            end as int,
            stride as int,
            block as int,
        ),
{
    let ghost all = block_entries(bytes@, 0, end as int, stride as int, block as int);
    let mut out: Vec<(u32, String)> = Vec::new();
    let mut off: usize = 0;
    let mut done = false;
    while !done && off < end && end - off >= 2
        invariant
            done ==> block_entries(bytes@, off as int, end as int, stride as int, block as int)
                == Seq::<(u32, Seq<char>)>::empty(),
            end <= bytes@.len(),
            end <= stride * 65536,
            stride == 1 || stride == 2,
            block < 65536,
            all == block_entries(bytes@, 0, end as int, stride as int, block as int),
            all == out@.map_values(|e: (u32, String)| (e.0, e.1@)) + block_entries(
                bytes@,
                off as int,
                end as int,
                stride as int,
                block as int,
            ),
        decreases end - off + if done { 0int } else { 1int },
    {
        let value: u16 = (bytes[off] as u16) + 256 * (bytes[off + 1] as u16);
        let entry = FNameEntry { header: FNameEntryHeader { value } };
        let n = entry.header.len();
        let wide = entry.header.is_wide();
        let data_len = if wide { 2 * n } else { n };
        assert(value == u16_at(bytes@, off as int));
        if end - off - 2 < data_len {
            done = true;
            continue;
        }
        let data = copy_bytes(bytes, off + 2, off + 2 + data_len);
        let text = if wide { decode_wide(units(&data).as_slice()) } else { decode_ansi(data.as_slice()) };
        assert(off / stride < 65536) by {
            if stride == 1 {
            } else {
            }
        }
        let id: u32 = block * FNAME_BLOCK_OFFSETS + (off / stride) as u32;
        let ghost before = out@.map_values(|e: (u32, String)| (e.0, e.1@));
        out.push((id, text));
        assert(out@.map_values(|e: (u32, String)| (e.0, e.1@)) =~= before.push((id, text@)));
        let step = 2 + entry.size_in_bytes(stride);
        let ghost next = off + step;
        assert(block_entries(bytes@, off as int, end as int, stride as int, block as int)
            == seq![(id, text@)] + block_entries(
            bytes@,
            next,
            end as int,
            stride as int,
            block as int,
        ));
        if end - off < step {
            assert(block_entries(bytes@, next, end as int, stride as int, block as int)
                == Seq::<(u32, Seq<char>)>::empty());
            off = end;
        } else {
            off = off + step;
        }
        assert(all == out@.map_values(|e: (u32, String)| (e.0, e.1@)) + block_entries(
            bytes@,
            off as int,
            end as int,
            stride as int,
            block as int,
        ));
    }
    proof {
        assert(block_entries(bytes@, off as int, end as int, stride as int, block as int)
            =~= Seq::empty());
    }
    assert(all =~= out@.map_values(|e: (u32, String)| (e.0, e.1@)));
    out
}

/// Interned names by id.
#[derive(Debug)]
pub struct NamePool(pub HashMap<u32, String>);

impl NamePool {
    pub fn new() -> (r: NamePool)
        ensures
            r.0@ == Map::<u32, String>::empty(),
    {
        NamePool(HashMap::new())
    }

    /// Stores `name` under the id of `block` and `offset`.
    pub fn insert(&mut self, block: u32, offset: u32, name: String)
        requires
            block < 65536,
            offset < 65536,
        ensures
            final(self).0@ == old(self).0@.insert((block * 65536 + offset) as u32, name),
    {
        self.0.insert(block * FNAME_BLOCK_OFFSETS + offset, name);
    }

    /// The name stored under `id`.
    pub fn get(&self, id: u32) -> (r: Option<&String>)
        ensures
            r is Some <==> self.0@.contains_key(id),
            r is Some ==> *r->0 == self.0@[id],
    {
        self.0.get(&id)
    }
}

} // verus!
