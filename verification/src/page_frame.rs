//! Decoder for one 64-bit `pagemap` word.
//!
//! Bit layout: bit 63 set means the page is resident and bits 0..=54
//! hold the page frame number; otherwise bit 62 set means the page is
//! swapped out, with the swap type in bits 0..=4 and the swap offset in
//! bits 5..=54; otherwise the page is absent.  Bit 61 marks a
//! file-mapped page and bit 55 the soft-dirty flag.

use vstd::prelude::*;

verus! {

/// Where a virtual page lives: a RAM page frame, a swap slot, or nowhere.
#[derive(Clone, Copy, Debug, PartialEq, Eq, Structural)]
pub enum PageLocation {
    /// Resident in RAM at this page frame number (55 bits).
    Ram { pfn: u64 },
    /// Swapped out: swap device index (5 bits) and slot offset (50 bits).
    Swap { swap_type: u64, swap_offset: u64 },
    /// Not resident and not swapped: never touched or unreadable.
    Absent,
}

/// The decoded form of one 64-bit `pagemap` word.
#[derive(Clone, Copy, Debug, PartialEq, Eq, Structural)]
pub struct PageFrame {
    /// Physical backing of the page.
    pub page_location: PageLocation,
    /// Bit 61: the page belongs to a file mapping.
    pub is_file_page: bool,
    /// Bit 55: the page was written since soft-dirty was last cleared.
    pub is_soft_dirty: bool,
}

/// The location encoded in word `w`, applying the rules in order:
/// RAM when bit 63 is set, else swap when bit 62 is set, else absent.
pub open spec fn spec_location_of_word(w: u64) -> PageLocation {
    if w & (1u64 << 63) != 0 {
        PageLocation::Ram { pfn: w & 0x007f_ffff_ffff_ffffu64 }
    } else if w & (1u64 << 62) != 0 {
        PageLocation::Swap { swap_type: w & 0x1f, swap_offset: (w >> 5) & 0x0003_ffff_ffff_ffffu64 }
    } else {
        PageLocation::Absent
    }
}

/// The full decoding of word `w`: location plus the two flag bits.
pub open spec fn spec_decode_word(w: u64) -> PageFrame {
    PageFrame {
        page_location: spec_location_of_word(w),
        is_file_page: (w >> 61) & 1 == 1,
        is_soft_dirty: (w >> 55) & 1 == 1,
    }
}

/// The scalar fields fit their bit widths, so the frame can be re-encoded.
pub open spec fn spec_frame_wf(f: PageFrame) -> bool {
    match f.page_location {
        PageLocation::Ram { pfn } => pfn < (1u64 << 55),
        PageLocation::Swap { swap_type, swap_offset } => swap_type < 32 && swap_offset < (1u64
            << 50),
        PageLocation::Absent => true,
    }
}

/// The word that encodes `f` at the documented bit positions.
pub open spec fn spec_encode_frame(f: PageFrame) -> u64 {
    (match f.page_location {
        PageLocation::Ram { pfn } => (1u64 << 63) | pfn,
        PageLocation::Swap { swap_type, swap_offset } => (1u64 << 62) | (swap_offset << 5)
            | swap_type,
        PageLocation::Absent => 0u64,
    }) | (if f.is_file_page {
        1u64 << 61
    } else {
        0u64
    }) | (if f.is_soft_dirty {
        1u64 << 55
    } else {
        0u64
    })
}

/// `b` directly continues `a`: equal flags, same location variant, and
/// the location's scalar advances by exactly one page or slot.
pub open spec fn spec_is_previous(a: PageFrame, b: PageFrame) -> bool {
    &&& a.is_file_page == b.is_file_page
    &&& a.is_soft_dirty == b.is_soft_dirty
    &&& match (a.page_location, b.page_location) {
        (PageLocation::Ram { pfn: p1 }, PageLocation::Ram { pfn: p2 }) => p1 + 1 == p2,
        (
            PageLocation::Swap { swap_type: t1, swap_offset: o1 },
            PageLocation::Swap { swap_type: t2, swap_offset: o2 },
        ) => t1 == t2 && o1 + 1 == o2,
        _ => false,
    }
}

impl PageFrame {
    /// Decode one 64-bit `pagemap` word.  Every word decodes; there is
    /// no error path.
    pub fn new(page_index: u64) -> (r: Self)
        ensures
            r == spec_decode_word(page_index),
    {
        let ram_flag = page_index & (1u64 << 63) != 0;
        let swap_flag = page_index & (1u64 << 62) != 0;

        let page_location = if ram_flag {
            // bits 0..=54 hold the page frame number
            PageLocation::Ram { pfn: page_index & 0x007f_ffff_ffff_ffffu64 }
        } else if swap_flag {
            // bits 0..=4 hold the swap type, bits 5..=54 the swap offset
            PageLocation::Swap {
                swap_type: page_index & 0x1f,
                swap_offset: (page_index >> 5) & 0x0003_ffff_ffff_ffffu64,
            }
        } else {
            PageLocation::Absent
        };

        let is_file_page = (page_index >> 61) & 1 == 1;
        let is_soft_dirty = (page_index >> 55) & 1 == 1;

        PageFrame { page_location, is_file_page, is_soft_dirty }
    }

    /// Rebuild the 64-bit word that this frame decodes from.
    pub fn encode(&self) -> (r: u64)
        requires
            spec_frame_wf(*self),
        ensures
            r == spec_encode_frame(*self),
    {
        let location_bits = match self.page_location {
            PageLocation::Ram { pfn } => (1u64 << 63) | pfn,
            PageLocation::Swap { swap_type, swap_offset } => (1u64 << 62) | (swap_offset << 5)
                | swap_type,
            PageLocation::Absent => 0u64,
        };
        let file_bit = if self.is_file_page {
            1u64 << 61
        } else {
            0u64
        };
        let dirty_bit = if self.is_soft_dirty {
            1u64 << 55
        } else {
            0u64
        };
        location_bits | file_bit | dirty_bit
    }

    /// Whether this frame comes directly before `other`, the merge test
    /// used to detect runs of adjacent page frames.
    pub fn is_previous_page(&self, other: &Self) -> (r: bool)
        ensures
            r == spec_is_previous(*self, *other),
    {
        if self.is_file_page != other.is_file_page || self.is_soft_dirty != other.is_soft_dirty {
            return false;
        }
        match (&self.page_location, &other.page_location) {
            (PageLocation::Ram { pfn: p1 }, PageLocation::Ram { pfn: p2 }) => *p1 < u64::MAX && *p1
                + 1 == *p2,
            (
                PageLocation::Swap { swap_type: t1, swap_offset: o1 },
                PageLocation::Swap { swap_type: t2, swap_offset: o2 },
            ) => *t1 == *t2 && *o1 < u64::MAX && *o1 + 1 == *o2,
            _ => false,
        }
    }
}

/// The three locations are mutually exclusive and cover every word:
/// RAM exactly when bit 63 is set, swap exactly when bit 63 is clear
/// and bit 62 is set, absent exactly when both are clear.
pub proof fn lemma_location_cases(w: u64)
    ensures
        (spec_decode_word(w).page_location is Ram) <==> (w & (1u64 << 63) != 0),
        (spec_decode_word(w).page_location is Swap) <==> (w & (1u64 << 63) == 0 && w & (1u64 << 62)
            != 0),
        (spec_decode_word(w).page_location is Absent) <==> (w & (1u64 << 63) == 0 && w & (1u64
            << 62) == 0),
{
}

/// Every decoded frame is well formed: its scalars fit their bit widths.
pub proof fn lemma_decode_wf(w: u64)
    ensures
        spec_frame_wf(spec_decode_word(w)),
{
    assert(w & 0x007f_ffff_ffff_ffffu64 < (1u64 << 55)) by (bit_vector);
    assert(w & 0x1f < 32) by (bit_vector);
    assert((w >> 5) & 0x0003_ffff_ffff_ffffu64 < (1u64 << 50)) by (bit_vector);
}

/// Round trip: encoding a well-formed frame at the documented bit
/// positions and decoding the word again yields the original frame.
pub proof fn lemma_encode_decode(f: PageFrame)
    requires
        spec_frame_wf(f),
    ensures
        spec_decode_word(spec_encode_frame(f)) == f,
{
    let fb: u64 = if f.is_file_page {
        1u64 << 61
    } else {
        0u64
    };
    let db: u64 = if f.is_soft_dirty {
        1u64 << 55
    } else {
        0u64
    };
    assert((1u64 << 61) != 0) by (bit_vector);
    assert((1u64 << 55) != 0) by (bit_vector);
    match f.page_location {
        PageLocation::Ram { pfn } => {
            let w = ((1u64 << 63) | pfn) | fb | db;
            assert((w & (1u64 << 63) != 0) && (w & 0x007f_ffff_ffff_ffffu64 == pfn) && (((w >> 61) & 1
                == 1) <==> fb != 0) && (((w >> 55) & 1 == 1) <==> db != 0)) by (bit_vector)
                requires
                    pfn < (1u64 << 55),
                    fb == (1u64 << 61) || fb == 0,
                    db == (1u64 << 55) || db == 0,
                    w == ((1u64 << 63) | pfn) | fb | db,
            ;
        },
        PageLocation::Swap { swap_type, swap_offset } => {
            let w = ((1u64 << 62) | (swap_offset << 5) | swap_type) | fb | db;
            assert((w & (1u64 << 63) == 0) && (w & (1u64 << 62) != 0) && (w & 0x1f == swap_type) && (
            (w >> 5) & 0x0003_ffff_ffff_ffffu64 == swap_offset) && (((w >> 61) & 1 == 1) <==> fb != 0) && (
            ((w >> 55) & 1 == 1) <==> db != 0)) by (bit_vector)
                requires
                    swap_type < 32,
                    swap_offset < (1u64 << 50),
                    fb == (1u64 << 61) || fb == 0,
                    db == (1u64 << 55) || db == 0,
                    w == ((1u64 << 62) | (swap_offset << 5) | swap_type) | fb | db,
            ;
        },
        PageLocation::Absent => {
            let w = 0u64 | fb | db;
            assert((w & (1u64 << 63) == 0) && (w & (1u64 << 62) == 0) && (((w >> 61) & 1 == 1)
                <==> fb != 0) && (((w >> 55) & 1 == 1) <==> db != 0)) by (bit_vector)
                requires
                    fb == (1u64 << 61) || fb == 0,
                    db == (1u64 << 55) || db == 0,
                    w == 0u64 | fb | db,
            ;
        },
    }
}

} // verus!
