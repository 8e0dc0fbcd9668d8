use vstd::prelude::*;
use crate::config::Config;

verus! {

/// Why a read of the target's memory failed.
#[derive(Debug, Clone, Copy, PartialEq, Eq, Structural)]
pub enum ReadError {
    InvalidAddress(usize),
    PermissionDenied(usize),
    ShortRead(usize),
}

/// Random-access reads of the target process's address space.
pub trait MemoryReader {
    /// The `len` bytes at `address`, as the target holds them during a pass;
    /// an implementation that knows them says which they are.
    closed spec fn bytes(&self, address: int, len: nat) -> Seq<u8> {
        arbitrary()
    }

    /// Reads `len` bytes at `address`.
    fn read_buf(&self, address: usize, len: usize) -> (r: Result<Vec<u8>, ReadError>)
        ensures
            r is Ok ==> r->Ok_0@ == self.bytes(address as int, len as nat),
            r is Ok ==> r->Ok_0@.len() == len,
    ;
}

/// Index of the first region at or after `k` that holds the range, or -1.
pub open spec fn first_holding(s: &Snapshot, address: int, len: int, k: int) -> int
    decreases s.regions@.len() - k,
{
    if k < 0 || k >= s.regions@.len() {
        -1
    } else if region_holds(s, k, address, len) {
        k
    } else {
        first_holding(s, address, len, k + 1)
    }
}

proof fn lemma_first_holding_skip(s: &Snapshot, address: int, len: int, a: int, b: int)
    requires
        0 <= a <= b,
        forall|j: int| a <= j < b ==> !region_holds(s, j, address, len),
    ensures
        first_holding(s, address, len, a) == first_holding(s, address, len, b),
    decreases b - a,
{
    if a < b {
        lemma_first_holding_skip(s, address, len, a + 1, b);
    }
}

/// A copy of parts of an address space: each region is a base address and
/// the bytes from there on.
#[derive(Debug)]
pub struct Snapshot {
    pub regions: Vec<(usize, Vec<u8>)>,
}

/// Region `k` holds the `len` bytes at `address`.
pub open spec fn region_holds(s: &Snapshot, k: int, address: int, len: int) -> bool {
    let (base, bytes) = s.regions@[k];
    base <= address && address + len <= base + bytes@.len()
}

impl Snapshot {
    /// The first region that holds the whole range, and where in it the range
    /// starts.
    pub fn locate(&self, address: usize, len: usize) -> (r: Option<(usize, usize)>)
        ensures
            r is Some ==> {
                let (k, start) = r->0;
                &&& k < self.regions@.len()
                &&& region_holds(self, k as int, address as int, len as int)
                &&& start == address - self.regions@[k as int].0
            },
            r is None ==> forall|k: int|
                0 <= k < self.regions@.len() ==> !region_holds(self, k, address as int, len as int),
            r is Some ==> first_holding(self, address as int, len as int, 0) == (r->0).0,
            r is None ==> first_holding(self, address as int, len as int, 0) == -1,
    {
        let mut k: usize = 0;
        while k < self.regions.len()
            invariant
                0 <= k <= self.regions@.len(),
                forall|j: int|
                    0 <= j < k ==> !region_holds(self, j, address as int, len as int),
            decreases self.regions@.len() - k,
        {
            let base = self.regions[k].0;
            let n = self.regions[k].1.len();
            if base <= address && address - base <= n && len <= n - (address - base) {
                proof {
                    lemma_first_holding_skip(self, address as int, len as int, 0, k as int);
                }
                return Some((k, address - base));
            }
            k = k + 1;
        }
        proof {
            lemma_first_holding_skip(self, address as int, len as int, 0, k as int);
        }
        None
    }
}

impl MemoryReader for Snapshot {
    /// The bytes of the first region that holds the whole range; zeros where
    /// none does.
    open spec fn bytes(&self, address: int, len: nat) -> Seq<u8> {
        let k = first_holding(self, address, len as int, 0);
        if k < 0 {
            Seq::new(len, |i: int| 0u8)
        } else {
            let start = address - self.regions@[k].0;
            self.regions@[k].1@.subrange(start, start + len)
        }
    }

    fn read_buf(&self, address: usize, len: usize) -> (r: Result<Vec<u8>, ReadError>) {
        match self.locate(address, len) {
            Some((k, start)) => {
                let bytes = &self.regions[k].1;
                let blen: usize = bytes.len();
                let mut out: Vec<u8> = Vec::new();
                let mut i: usize = 0;
                while i < len
                    invariant
                        0 <= i <= len,
                        start + len <= bytes@.len(),
                        bytes@.len() == blen,
                        out@ =~= bytes@.subrange(start as int, start + i),
                    decreases len - i,
                {
                    out.push(bytes[start + i]);
                    i = i + 1;
                    assert(out@ =~= bytes@.subrange(start as int, start + i));
                }
                Ok(out)
            },
            None => Err(ReadError::InvalidAddress(address)),
        }
    }
}

/// Little-endian 32-bit value of the four bytes of `b` from `lo`.
pub open spec fn le_u32(b: Seq<u8>, lo: int) -> int {
    b[lo] as int + 0x100 * b[lo + 1] as int + 0x1_0000 * b[lo + 2] as int + 0x100_0000 * b[lo
        + 3] as int
}

/// Little-endian 64-bit value of the eight bytes of `b` from `lo`.
pub open spec fn le_u64(b: Seq<u8>, lo: int) -> int {
    le_u32(b, lo) + 0x1_0000_0000 * le_u32(b, lo + 4)
}

fn decode_u32(b: &Vec<u8>, lo: usize) -> (r: u32)
    requires
        lo + 4 <= b@.len(),
    ensures
        r == le_u32(b@, lo as int),
{
    let _n: usize = b.len();
    (b[lo] as u32) + 0x100 * (b[lo + 1] as u32) + 0x1_0000 * (b[lo + 2] as u32) + 0x100_0000 * (
    b[lo + 3] as u32)
}

fn decode_u64(b: &Vec<u8>, lo: usize) -> (r: u64)
    requires
        lo + 8 <= b@.len(),
    ensures
        r == le_u64(b@, lo as int),
{
    let _n: usize = b.len();
    let low = decode_u32(b, lo) as u64;
    let high = decode_u32(b, lo + 4) as u64;
    low + 0x1_0000_0000 * high
}

/// The little-endian 32-bit value at `address`.
pub open spec fn model_u32<M: MemoryReader>(mem: &M, address: int) -> int {
    le_u32(mem.bytes(address, 4), 0)
}

/// The little-endian 64-bit value at `address`.
pub open spec fn model_u64<M: MemoryReader>(mem: &M, address: int) -> int {
    le_u64(mem.bytes(address, 8), 0)
}

/// Reads a little-endian 32-bit value at `address`.
pub fn read_u32<M: MemoryReader>(mem: &M, address: usize) -> (r: Result<u32, ReadError>)
    ensures
        r is Ok ==> r->Ok_0 == model_u32(mem, address as int),
{
    let b = mem.read_buf(address, 4)?;
    Ok(decode_u32(&b, 0))
}

/// Reads a little-endian 64-bit value at `address`.
pub fn read_u64<M: MemoryReader>(mem: &M, address: usize) -> (r: Result<u64, ReadError>)
    ensures
        r is Ok ==> r->Ok_0 == model_u64(mem, address as int),
{
    let b = mem.read_buf(address, 8)?;
    Ok(decode_u64(&b, 0))
}

/// A pointer into the target process.
#[derive(Debug, Clone, Copy, PartialEq, Eq, Structural)]
pub struct Ptr(pub usize);

impl Ptr {
    pub fn is_zero(&self) -> (r: bool)
        ensures
            r == (self.0 == 0),
    {
        self.0 == 0
    }

    /// `None` for the null pointer.
    pub fn to_option(self) -> (r: Option<Ptr>)
        ensures
            r == (if self.0 == 0 { None } else { Some(self) }),
    {
        if self.is_zero() {
            None
        } else {
            Some(self)
        }
    }
}

/// A dynamic array in the target: where its elements start and how many
/// there are.
#[derive(Debug, Clone, Copy, PartialEq, Eq, Structural)]
pub struct TArray {
    pub ptr: usize,
    pub len: u32,
}

impl TArray {
    /// Address of element `i` of `elem_size` bytes, where it fits the
    /// address space.
    pub fn element_address(&self, i: usize, elem_size: usize) -> (r: Option<usize>)
        ensures
            r is Some <==> (i < self.len && self.ptr + i * elem_size <= usize::MAX),
            r is Some ==> r->0 == self.ptr + i * elem_size,
    {
        if i >= self.len as usize {
            return None;
        }
        match i.checked_mul(elem_size) {
            Some(off) => self.ptr.checked_add(off),
            None => {
                proof {
                    assert(i * elem_size > usize::MAX);
                    assert(self.ptr + i * elem_size > usize::MAX);
                }
                None
            },
        }
    }
}

/// Function flags as the target stores them.
#[derive(Debug, Clone, Copy, PartialEq, Eq, Structural)]
pub struct FunctionVars {
    pub flags: u32,
}

/// Address of a name handle in the target.
#[derive(Debug, Clone, Copy, PartialEq, Eq, Structural)]
pub struct FNamePtr(pub usize);

impl FNamePtr {
    /// Reads the name id the handle holds.
    pub fn read<M: MemoryReader>(&self, mem: &M) -> (r: Result<u32, ReadError>)
        ensures
            r is Ok ==> r->Ok_0 == model_u32(mem, self.0 as int),
    {
        read_u32(mem, self.0)
    }
}

/// Address of an enum record in the target.
#[derive(Debug, Clone, Copy, PartialEq, Eq, Structural)]
pub struct UEnumPtr(pub usize);

impl UEnumPtr {
    /// Reads the enum's table of `(name id, value)` pairs: a pointer and, one
    /// word later, the element count.
    pub fn names<M: MemoryReader>(&self, mem: &M, config: &Config) -> (r: Result<TArray, ReadError>)
        ensures
            self.0 + config.uenum.names + 8 > usize::MAX ==> r is Err,
            r is Ok ==> r->Ok_0.ptr == model_u64(mem, self.0 + config.uenum.names) as usize
                && r->Ok_0.len == model_u32(mem, self.0 + config.uenum.names + 8),
    {
        let at = match self.0.checked_add(config.uenum.names) {
            Some(a) => a,
            None => return Err(ReadError::InvalidAddress(self.0)),
        };
        let len_at = match at.checked_add(8) {
            Some(a) => a,
            None => return Err(ReadError::InvalidAddress(at)),
        };
        let ptr = read_u64(mem, at)?;
        let len = read_u32(mem, len_at)?;
        Ok(TArray { ptr: ptr as usize, len })
    }
}

} // verus!
