use memory_map::errors::ProcError;
use memory_map::maps::MemoryRegion;
use memory_map::page_frame::{PageFrame, PageLocation};
use memory_map::physmap::{compress_frames, decode_pagemap_words};

/// A region covering `pages` pages starting at virtual address
/// `start`, as the maps parser would build it.
fn region(start: usize, pages: usize) -> MemoryRegion {
    let line = format!("{:x}-{:x} rw-p 00000000 00:00 0", start, start + pages * 4096);
    MemoryRegion::parse_maps_line(&line).unwrap()
}

/// The pagemap bytes for the given words, little-endian, plus one
/// trailing word that the mapper reads and drops.
fn pagemap_bytes(words: &[u64]) -> Vec<u8> {
    let mut bytes = Vec::new();
    for w in words {
        bytes.extend_from_slice(&w.to_le_bytes());
    }
    bytes.extend_from_slice(&0u64.to_le_bytes());
    bytes
}

#[test]
fn words_decode_little_endian() {
    let bytes = pagemap_bytes(&[0x8000_0000_0000_1000]);
    let frames = decode_pagemap_words(&bytes, 1);
    assert_eq!(frames.len(), 1);
    assert_eq!(frames[0].page_location, PageLocation::Ram { pfn: 0x1000 });
}

#[test]
fn ram_run_compresses_to_two_runs() {
    let words = [
        0x8000_0000_0000_1000u64,
        0x8000_0000_0000_1001,
        0x8000_0000_0000_1002,
        0x8000_0000_0000_1004,
    ];
    let mut r = region(0x10000, 4);
    let bytes = pagemap_bytes(&words);
    r.fill_physical_maps(&bytes).unwrap();
    let map = r.physical_regions.as_ref().unwrap();
    assert_eq!(map.runs.len(), 2);

    let page_start = 0x10000 / 4096;
    assert_eq!(map.runs[0].first_page, page_start);
    assert_eq!(map.runs[0].len, 3);
    assert_eq!(
        map.runs[0].frame.page_location,
        PageLocation::Ram { pfn: 0x1002 }
    );

    assert_eq!(map.runs[1].first_page, page_start + 3);
    assert_eq!(map.runs[1].len, 1);
    assert_eq!(
        map.runs[1].frame.page_location,
        PageLocation::Ram { pfn: 0x1004 }
    );
}

#[test]
fn one_page_region_reads_two_words_and_yields_one_run() {
    let mut r = region(0x1000, 1);
    let (offset, len) = r.pagemap_read_window();
    assert_eq!(offset, 8);
    assert_eq!(len, 16);
    let bytes = pagemap_bytes(&[0x8000_0000_0000_0042]);
    assert_eq!(bytes.len(), 16);
    r.fill_physical_maps(&bytes).unwrap();
    let map = r.physical_regions.as_ref().unwrap();
    assert_eq!(map.runs.len(), 1);
    assert_eq!(map.runs[0].first_page, 1);
    assert_eq!(map.runs[0].len, 1);
    assert!(r.has_physical_mapping());
}

#[test]
fn absent_pages_compress_to_one_repeated_run() {
    let mut r = region(0, 3);
    let bytes = pagemap_bytes(&[0, 0, 0]);
    r.fill_physical_maps(&bytes).unwrap();
    let map = r.physical_regions.as_ref().unwrap();
    assert_eq!(map.runs.len(), 1);
    assert_eq!(map.runs[0].first_page, 0);
    assert_eq!(map.runs[0].len, 3);
    assert_eq!(map.runs[0].frame, PageFrame::new(0));
}

#[test]
fn short_read_surfaces_pagemap_io() {
    let mut r = region(0, 3);
    // three pages need four words; hand over only three
    let bytes = pagemap_bytes(&[0, 0]);
    assert_eq!(r.fill_physical_maps(&bytes).unwrap_err(), ProcError::PagemapIo);
    assert!(!r.has_physical_mapping());
}

#[test]
fn swap_runs_merge_on_successive_offsets() {
    let swap = |t: u64, o: u64| (1u64 << 62) | (o << 5) | t;
    let words = [swap(1, 10), swap(1, 11), swap(2, 12)];
    let mut r = region(0, 3);
    let bytes = pagemap_bytes(&words);
    r.fill_physical_maps(&bytes).unwrap();
    let map = r.physical_regions.as_ref().unwrap();
    assert_eq!(map.runs.len(), 2);
    assert_eq!(map.runs[0].len, 2);
    assert_eq!(
        map.runs[0].frame.page_location,
        PageLocation::Swap { swap_type: 1, swap_offset: 11 }
    );
    assert_eq!(map.runs[1].len, 1);
}

#[test]
fn expansion_of_runs_restores_the_frames() {
    // a mixed sequence: ascending RAM, absent repetition, lone swap
    let frames: Vec<PageFrame> = vec![
        PageFrame::new(0x8000_0000_0000_0005),
        PageFrame::new(0x8000_0000_0000_0006),
        PageFrame::new(0),
        PageFrame::new(0),
        PageFrame::new((1u64 << 62) | (7u64 << 5) | 1),
    ];
    let map = compress_frames(&frames, 100);
    assert_eq!(map.runs.len(), 3);
    // expand each run by its length and rebuild the sequence
    let mut rebuilt: Vec<PageFrame> = Vec::new();
    for run in &map.runs {
        for i in 0..run.len {
            let back = (run.len - 1 - i) as u64;
            let frame = match run.frame.page_location {
                PageLocation::Absent => run.frame,
                PageLocation::Ram { pfn } => PageFrame {
                    page_location: PageLocation::Ram { pfn: pfn - back },
                    ..run.frame
                },
                PageLocation::Swap { swap_type, swap_offset } => PageFrame {
                    page_location: PageLocation::Swap { swap_type, swap_offset: swap_offset - back },
                    ..run.frame
                },
            };
            rebuilt.push(frame);
        }
    }
    assert_eq!(rebuilt, frames);
    // the runs are keyed by the virtual page index of their first page
    assert_eq!(map.runs[0].first_page, 100);
    assert_eq!(map.runs[1].first_page, 102);
    assert_eq!(map.runs[2].first_page, 104);
}

#[test]
fn compress_of_empty_input_is_empty() {
    let frames: Vec<PageFrame> = Vec::new();
    let map = compress_frames(&frames, 0);
    assert_eq!(map.runs.len(), 0);
}
