use memory_map::page_frame::{PageFrame, PageLocation};

#[test]
fn decode_zero_word_is_absent() {
    let f = PageFrame::new(0);
    assert_eq!(
        f,
        PageFrame {
            page_location: PageLocation::Absent,
            is_file_page: false,
            is_soft_dirty: false,
        }
    );
}

#[test]
fn decode_ram_word() {
    let f = PageFrame::new(0x8000_0000_0000_1000);
    assert_eq!(f.page_location, PageLocation::Ram { pfn: 0x1000 });
    assert!(!f.is_file_page);
    assert!(!f.is_soft_dirty);
}

#[test]
fn decode_ram_wins_over_swap_bit() {
    // both bit 63 and bit 62 set: the RAM rule applies first
    let f = PageFrame::new(0xc000_0000_0000_0007);
    assert_eq!(f.page_location, PageLocation::Ram { pfn: 7 });
}

#[test]
fn decode_swap_word_splits_type_and_offset() {
    // bit 62 set, type bits 0-4 = 3, offset bits 5-54 = 0x1234
    let w: u64 = (1u64 << 62) | (0x1234u64 << 5) | 3;
    let f = PageFrame::new(w);
    assert_eq!(
        f.page_location,
        PageLocation::Swap { swap_type: 3, swap_offset: 0x1234 }
    );
}

#[test]
fn decode_flag_bits() {
    let file_only = PageFrame::new(1u64 << 61);
    assert!(file_only.is_file_page);
    assert!(!file_only.is_soft_dirty);
    assert_eq!(file_only.page_location, PageLocation::Absent);

    let dirty_only = PageFrame::new(1u64 << 55);
    assert!(!dirty_only.is_file_page);
    assert!(dirty_only.is_soft_dirty);
}

#[test]
fn soft_dirty_is_bit_55_of_a_ram_word() {
    let w: u64 = (1u64 << 63) | (1u64 << 55) | 42;
    let f = PageFrame::new(w);
    assert!(f.is_soft_dirty);
    // the PFN covers bits 0 through 54 only, so bit 55 stays out of it
    assert_eq!(f.page_location, PageLocation::Ram { pfn: 42 });
}

#[test]
fn encode_then_decode_ram_round_trip() {
    let f = PageFrame {
        page_location: PageLocation::Ram { pfn: 0x1234_5678 },
        is_file_page: true,
        is_soft_dirty: false,
    };
    assert_eq!(PageFrame::new(f.encode()), f);
}

#[test]
fn encode_then_decode_swap_round_trip() {
    let f = PageFrame {
        page_location: PageLocation::Swap { swap_type: 31, swap_offset: 0x3_ffff_ffff_ffff },
        is_file_page: false,
        is_soft_dirty: true,
    };
    assert_eq!(PageFrame::new(f.encode()), f);
}

#[test]
fn encode_then_decode_absent_round_trip() {
    let f = PageFrame {
        page_location: PageLocation::Absent,
        is_file_page: true,
        is_soft_dirty: true,
    };
    assert_eq!(PageFrame::new(f.encode()), f);
}

#[test]
fn previous_page_on_adjacent_ram_frames() {
    let a = PageFrame::new(0x8000_0000_0000_1000);
    let b = PageFrame::new(0x8000_0000_0000_1001);
    let c = PageFrame::new(0x8000_0000_0000_1004);
    assert!(a.is_previous_page(&b));
    assert!(!b.is_previous_page(&a));
    assert!(!b.is_previous_page(&c));
    assert!(!a.is_previous_page(&a));
}

#[test]
fn previous_page_needs_equal_flags() {
    let a = PageFrame {
        page_location: PageLocation::Ram { pfn: 5 },
        is_file_page: true,
        is_soft_dirty: false,
    };
    let b = PageFrame {
        page_location: PageLocation::Ram { pfn: 6 },
        is_file_page: false,
        is_soft_dirty: false,
    };
    assert!(!a.is_previous_page(&b));
}

#[test]
fn previous_page_on_swap_needs_same_type() {
    let a = PageFrame {
        page_location: PageLocation::Swap { swap_type: 1, swap_offset: 9 },
        is_file_page: false,
        is_soft_dirty: false,
    };
    let same_type = PageFrame {
        page_location: PageLocation::Swap { swap_type: 1, swap_offset: 10 },
        is_file_page: false,
        is_soft_dirty: false,
    };
    let other_type = PageFrame {
        page_location: PageLocation::Swap { swap_type: 2, swap_offset: 10 },
        is_file_page: false,
        is_soft_dirty: false,
    };
    assert!(a.is_previous_page(&same_type));
    assert!(!a.is_previous_page(&other_type));
}

#[test]
fn absent_frames_are_never_previous() {
    let a = PageFrame::new(0);
    assert!(!a.is_previous_page(&a));
}
