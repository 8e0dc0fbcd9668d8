use vstd::prelude::*;
use vstd::std_specs::bits::{u8_trailing_zeros, u8_trailing_ones};

verus! {

/// How a boolean property occupies its host byte.
#[derive(Debug, Clone, Copy, PartialEq, Eq, Structural)]
pub enum BitMask {
    /// The whole byte: an ordinary `bool`.
    Full,
    /// `len` bits starting at bit `offset`.
    Partial { len: u32, offset: u32 },
}

/// First set bit of `mask` (8 for an empty mask).
pub open spec fn mask_offset(mask: u8) -> u32 {
    u8_trailing_zeros(mask)
}

/// Number of consecutive set bits from the first set bit of `mask`.
pub open spec fn mask_len(mask: u8) -> u32 {
    if mask_offset(mask) < 8 {
        u8_trailing_ones((mask >> (mask_offset(mask) as u8)) as u8)
    } else {
        0
    }
}

pub open spec fn bit_mask_of(mask: u8) -> BitMask {
    if mask == 255 {
        BitMask::Full
    } else {
        BitMask::Partial { len: mask_len(mask), offset: mask_offset(mask) }
    }
}

/// The bit offset and length that `mask` selects.
fn offset_len(mask: u8) -> (r: (u32, u32))
    ensures
        r == (mask_offset(mask), mask_len(mask)),
{
    let offset = mask.trailing_zeros();
    if offset < 8 {
        let shifted: u8 = mask >> (offset as u8);
        (offset, shifted.trailing_ones())
    } else {
        (offset, 0)
    }
}

impl BitMask {
    /// Classifies a byte mask: the full byte, or the run of bits it selects.
    pub fn determinate(mask: u8) -> (r: BitMask)
        ensures
            r == bit_mask_of(mask),
    {
        if mask == 255 {
            BitMask::Full
        } else {
            let (offset, len) = offset_len(mask);
            BitMask::Partial { len, offset }
        }
    }
}

/// Layout variables of a boolean property.
#[derive(Debug, Clone, Copy, PartialEq, Eq, Structural)]
pub struct BoolVars {
    pub field_size: u8,
    pub byte_offset: u8,
    pub byte_mask: u8,
    pub field_mask: u8,
}

/// One named bit range inside a host byte.
#[derive(Debug)]
pub struct Bitfield {
    pub name: String,
    /// Bit offset.
    pub offset: u32,
    /// Bit length.
    pub len: u32,
}

pub type BitfieldView = (Seq<char>, u32, u32);

impl View for Bitfield {
    type V = BitfieldView;

    open spec fn view(&self) -> BitfieldView {
        (self.name@, self.offset, self.len)
    }
}

/// Bit ranges that share one host byte at `offset`.
#[derive(Debug)]
pub struct BitfieldGroup {
    pub offset: usize,
    pub items: Vec<Bitfield>,
}

pub type GroupView = (usize, Seq<BitfieldView>);

impl View for BitfieldGroup {
    type V = GroupView;

    open spec fn view(&self) -> GroupView {
        (self.offset, self.items@.map_values(|b: Bitfield| b@))
    }
}

pub open spec fn groups_view(gs: Seq<BitfieldGroup>) -> Seq<GroupView> {
    gs.map_values(|g: BitfieldGroup| g@)
}

/// What the caller does with the property it handed to the accumulator.
#[derive(Debug)]
pub enum AccumulatorResult {
    /// Emit these completed groups, then the property itself.
    Append(Vec<BitfieldGroup>),
    /// The property was absorbed into a group.
    Skip,
}

pub enum ResultView {
    Append(Seq<GroupView>),
    Skip,
}

impl View for AccumulatorResult {
    type V = ResultView;

    open spec fn view(&self) -> ResultView {
        match self {
            AccumulatorResult::Append(gs) => ResultView::Append(groups_view(gs@)),
            AccumulatorResult::Skip => ResultView::Skip,
        }
    }
}

/// Fuses consecutive single-bit boolean properties that share a host byte.
pub struct BitfieldAccumulator {
    pub current: Option<BitfieldGroup>,
    pub groups: Vec<BitfieldGroup>,
}

/// The accumulator's state: the open group, if any, and the closed ones.
pub type AccView = (Option<GroupView>, Seq<GroupView>);

impl View for BitfieldAccumulator {
    type V = AccView;

    open spec fn view(&self) -> AccView {
        (
            match self.current {
                Some(g) => Some(g@),
                None => None,
            },
            groups_view(self.groups@),
        )
    }
}

/// Closes the open group, if any, after the closed ones.
pub open spec fn flushed(s: AccView) -> Seq<GroupView> {
    match s.0 {
        Some(g) => s.1.push(g),
        None => s.1,
    }
}

pub open spec fn entry_of(name: Seq<char>, byte_mask: u8) -> BitfieldView {
    (name, mask_offset(byte_mask), mask_len(byte_mask))
}

/// One step of the accumulator on a property named `name` at byte `offset`;
/// `vars` is present for a boolean property and absent for any other.
pub open spec fn accumulate_step(
    s: AccView,
    name: Seq<char>,
    vars: Option<BoolVars>,
    offset: usize,
) -> (AccView, ResultView) {
    match vars {
        Some(v) if v.field_mask != 255 => {
            let e = entry_of(name, v.byte_mask);
            match s.0 {
                Some(g) if g.0 == offset => ((Some((g.0, g.1.push(e))), s.1), ResultView::Skip),
                Some(g) => ((Some((offset, seq![e])), s.1.push(g)), ResultView::Skip),
                None => ((Some((offset, seq![e])), s.1), ResultView::Skip),
            }
        },
        _ => ((None, Seq::empty()), ResultView::Append(flushed(s))),
    }
}

fn new_group(name: &str, byte_mask: u8, offset: usize) -> (r: BitfieldGroup)
    ensures
        r@ == (offset, seq![entry_of(name@, byte_mask)]),
{
    let (bit_offset, len) = offset_len(byte_mask);
    let items = vec![Bitfield { name: name.to_owned(), offset: bit_offset, len }];
    let r = BitfieldGroup { offset, items };
    assert(r@.1 =~= seq![entry_of(name@, byte_mask)]);
    r
}

impl BitfieldAccumulator {
    pub fn new() -> (r: BitfieldAccumulator)
        ensures
            r@ == (None::<GroupView>, Seq::<GroupView>::empty()),
    {
        let r = BitfieldAccumulator { current: None, groups: Vec::new() };
        assert(r@.1 =~= Seq::<GroupView>::empty());
        r
    }

    /// Closes the open group and hands out every group held, leaving the
    /// accumulator empty.
    pub fn flush_all(&mut self) -> (r: Vec<BitfieldGroup>)
        ensures
            groups_view(r@) == flushed(old(self)@),
            final(self)@ == (None::<GroupView>, Seq::<GroupView>::empty()),
    {
        self.flush()
    }

    fn flush(&mut self) -> (r: Vec<BitfieldGroup>)
        ensures
            groups_view(r@) == flushed(old(self)@),
            final(self)@ == (None::<GroupView>, Seq::<GroupView>::empty()),
    {
        let cur = self.current.take();
        let mut groups: Vec<BitfieldGroup> = Vec::new();
        std::mem::swap(&mut groups, &mut self.groups);
        let ghost before = groups@;
        match cur {
            Some(g) => {
                groups.push(g);
                assert(groups_view(groups@) =~= groups_view(before).push(g@));
            },
            None => {},
        }
        assert(final(self)@.1 =~= Seq::<GroupView>::empty());
        groups
    }

    /// Feeds one property of a struct's field walk to the accumulator. `vars`
    /// is present for a boolean property and absent for any other.
    pub fn accumulate(&mut self, name: &str, vars: Option<BoolVars>, offset: usize) -> (r:
        AccumulatorResult)
        ensures
            (final(self)@, r@) == accumulate_step(old(self)@, name@, vars, offset),
    {
        match vars {
            Some(v) => {
                if v.field_mask == 255 {
                    return AccumulatorResult::Append(self.flush());
                }
                let ghost s0 = self@;
                let (bit_offset, len) = offset_len(v.byte_mask);
                let entry = Bitfield { name: name.to_owned(), offset: bit_offset, len };
                let cur = self.current.take();
                match cur {
                    Some(mut g) => {
                        if g.offset == offset {
                            g.items.push(entry);
                            assert(g@.1 =~= s0.0.unwrap().1.push(entry_of(name@, v.byte_mask)));
                            self.current = Some(g);
                        } else {
                            let ghost g0 = g@;
                            let ghost before = self.groups@;
                            self.groups.push(g);
                            assert(groups_view(self.groups@) =~= groups_view(before).push(g0));
                            self.current = Some(new_group(name, v.byte_mask, offset));
                        }
                    },
                    None => {
                        self.current = Some(new_group(name, v.byte_mask, offset));
                    },
                }
                AccumulatorResult::Skip
            },
            None => AccumulatorResult::Append(self.flush()),
        }
    }
}

} // verus!
