use uedumper::{pick_enum_size, BitMask, FNameEntryHeader, Layout};

#[test]
fn test_align_layout() {
    let layout = Layout { size: 12, align: 8 };
    assert_eq!(layout.get_aligned_size(), 16);
}

#[test]
fn test_enum_size() {
    assert_eq!(pick_enum_size(&vec![0, 255]), 1);
}

#[test]
fn test_align() {
    let layout = Layout { size: 14, align: 8 };
    assert_eq!(layout.get_aligned_size(), 16);
}

#[test]
fn test_bit_mask() {
    let mask = BitMask::determinate(0b11000);
    assert_eq!(mask, BitMask::Partial { len: 2, offset: 3 });

    let mask = BitMask::determinate(0b11111111);
    assert_eq!(mask, BitMask::Full);
}

#[test]
fn test_fname_entry_header() {
    let a = FNameEntryHeader { value: 0b0000000101_00000_1 };
    assert_eq!(a.len(), 5);
    assert!(a.is_wide());
}
