use vstd::prelude::*;

verus! {

/// Size and alignment of a reflected type, in bytes.
#[derive(Debug, Clone, Copy, PartialEq, Eq, Structural)]
pub struct Layout {
    pub size: usize,
    pub align: usize,
}

/// `size` rounded up to the next multiple of `align`; an alignment of zero
/// leaves the size as it is.
pub open spec fn aligned_size(size: int, align: int) -> int {
    if align <= 0 || size % align == 0 {
        size
    } else {
        size + (align - size % align)
    }
}

impl Layout {
    pub open spec fn spec_aligned_size(&self) -> int {
        aligned_size(self.size as int, self.align as int)
    }

    /// A layout whose size and alignment are both `value`.
    pub fn same(value: usize) -> (r: Layout)
        requires
            value != 0,
        ensures
            r.size == value,
            r.align == value,
    {
        Layout { size: value, align: value }
    }

    /// The size rounded up to the alignment, used as the start of a
    /// subclass's own fields.
    pub fn get_aligned_size(&self) -> (r: usize)
        requires
            self.spec_aligned_size() <= usize::MAX,
        ensures
            r == self.spec_aligned_size(),
    {
        if self.align == 0 || self.size % self.align == 0 {
            self.size
        } else {
            self.size + (self.align - self.size % self.align)
        }
    }
}

} // verus!
