//! Run-length compression of decoded `pagemap` entries.
//!
//! A region's pages decode to one `PageFrame` per virtual page.  Two
//! successive frames are merged into one run when they are equal or
//! when the second directly continues the first (same flags, same
//! location variant, scalar advanced by one).  Each run is stored
//! under its first virtual page index, with the frame of its last page
//! and its length in pages.

use byteorder::ByteOrder;
use vstd::prelude::*;

use crate::page_frame::PageFrame;
use crate::page_frame::PageLocation;
use crate::page_frame::spec_decode_word;
use crate::page_frame::spec_is_previous;

verus! {

/// One run of merged page frames: `len` successive virtual pages
/// starting at `first_page`, whose last page decodes to `frame`.
#[derive(Clone, Copy, Debug, PartialEq, Eq, Structural)]
pub struct PageFrameRun {
    /// Virtual page index of the first page of the run.
    pub first_page: usize,
    /// Decoded frame of the last page of the run.
    pub frame: PageFrame,
    /// Number of pages the run covers, at least one.
    pub len: usize,
}

impl View for PageFrameRun {
    type V = (int, PageFrame, int);

    open spec fn view(&self) -> (int, PageFrame, int) {
        (self.first_page as int, self.frame, self.len as int)
    }
}

/// The per-region map of runs, ordered by first virtual page index.
#[derive(Debug)]
pub struct PageFrameMap {
    /// The runs, in ascending order of `first_page`.
    pub runs: Vec<PageFrameRun>,
}

impl View for PageFrameMap {
    type V = Seq<(int, PageFrame, int)>;

    open spec fn view(&self) -> Seq<(int, PageFrame, int)> {
        self.runs@.map_values(|r: PageFrameRun| r@)
    }
}

/// The 64-bit word written little-endian in the eight bytes of `b`.
pub open spec fn spec_le_word(b: Seq<u8>) -> u64 {
    (b[0] + b[1] * 0x100 + b[2] * 0x1_0000 + b[3] * 0x100_0000 + b[4] * 0x1_0000_0000 + b[5]
        * 0x100_0000_0000 + b[6] * 0x1_0000_0000_0000 + b[7] * 0x100_0000_0000_0000) as u64
}

/// Relies on `byteorder::LittleEndian::read_u64`: the first eight
/// bytes of the slice starting at `start`, read as one little-endian
/// 64-bit word.
#[verifier::external_body]
fn read_le_word_at(bytes: &Vec<u8>, start: usize) -> (r: u64)
    requires
        start + 8 <= bytes@.len(),
    ensures
        r == spec_le_word(bytes@.subrange(start as int, start as int + 8)),
{
    byteorder::LittleEndian::read_u64(&bytes[start..start + 8])
}

/// The first `n` 64-bit words of a `pagemap` read, each decoded to its
/// page frame.
pub open spec fn spec_frames_of(bytes: Seq<u8>, n: int) -> Seq<PageFrame> {
    Seq::new(n as nat, |i: int| spec_decode_word(spec_le_word(bytes.subrange(8 * i, 8 * i + 8))))
}

/// Decode the first `n_words` words of a raw `pagemap` read, one
/// frame per virtual page.
pub fn decode_pagemap_words(bytes: &Vec<u8>, n_words: usize) -> (r: Vec<PageFrame>)
    requires
        8 * n_words <= bytes@.len(),
    ensures
        r@ == spec_frames_of(bytes@, n_words as int),
{
    let mut r: Vec<PageFrame> = Vec::new();
    let n_bytes = bytes.len();
    let mut i: usize = 0;
    while i < n_words
        invariant
            8 * n_words <= bytes@.len(),
            n_bytes == bytes@.len(),
            i <= n_words,
            r@ == spec_frames_of(bytes@, n_words as int).take(i as int),
        decreases n_words - i,
    {
        proof {
            assert(8 * (i as int) + 8 <= 8 * (n_words as int));
        }
        let w = read_le_word_at(bytes, 8 * i);
        r.push(PageFrame::new(w));
        proof {
            assert(r@ =~= spec_frames_of(bytes@, n_words as int).take(i as int + 1));
        }
        i += 1;
    }
    proof {
        assert(spec_frames_of(bytes@, n_words as int).take(n_words as int) =~= spec_frames_of(
            bytes@,
            n_words as int,
        ));
    }
    r
}

/// The merge test between two successive frames: equal, or the second
/// directly continues the first.
pub open spec fn spec_merges(a: PageFrame, b: PageFrame) -> bool {
    a == b || spec_is_previous(a, b)
}

/// End of the maximal merge chain that starts at index `i`: the first
/// index after `i` whose frame does not merge with its predecessor, or
/// the end of the sequence.
pub open spec fn spec_chunk_end(frames: Seq<PageFrame>, i: int) -> int
    decreases frames.len() - i,
{
    if i < 0 || i + 1 >= frames.len() {
        frames.len() as int
    } else if spec_merges(frames[i], frames[i + 1]) {
        spec_chunk_end(frames, i + 1)
    } else {
        i + 1
    }
}

/// A chunk starting inside the sequence ends after it begins and no
/// later than the end of the sequence.
pub proof fn lemma_chunk_end_bounds(frames: Seq<PageFrame>, i: int)
    requires
        0 <= i < frames.len(),
    ensures
        i < spec_chunk_end(frames, i) <= frames.len(),
    decreases frames.len() - i,
{
    if i + 1 < frames.len() && spec_merges(frames[i], frames[i + 1]) {
        lemma_chunk_end_bounds(frames, i + 1);
    }
}

/// The chunk that starts at `s` ends exactly at `j` when every pair up
/// to `j` merges and the pair at `j` (if any) does not.
proof fn lemma_chunk_end_eq(frames: Seq<PageFrame>, s: int, j: int)
    requires
        0 <= s < j <= frames.len(),
        forall|k: int| s < k < j ==> spec_merges(frames[k - 1], #[trigger] frames[k]),
        j == frames.len() || !spec_merges(frames[j - 1], frames[j]),
    ensures
        spec_chunk_end(frames, s) == j,
    decreases j - s,
{
    if s + 1 == j {
        if j < frames.len() {
            assert(!spec_merges(frames[s], frames[s + 1]));
        }
    } else {
        assert(spec_merges(frames[s], frames[s + 1]));
        lemma_chunk_end_eq(frames, s + 1, j);
    }
}

/// The run decomposition of `frames[i..]`, with virtual page indices
/// counted from `base`: each maximal merge chain becomes one run
/// `(base + start, frame of its last page, chain length)`.
pub open spec fn spec_compress_from(frames: Seq<PageFrame>, i: int, base: int) -> Seq<
    (int, PageFrame, int),
>
    decreases frames.len() - i,
        when i >= 0
        via spec_compress_from_dec
{
    if i < 0 || i >= frames.len() {
        seq![]
    } else {
        let e = spec_chunk_end(frames, i);
        seq![(base + i, frames[e - 1], e - i)] + spec_compress_from(frames, e, base)
    }
}

#[via_fn]
proof fn spec_compress_from_dec(frames: Seq<PageFrame>, i: int, base: int) {
    if 0 <= i < frames.len() {
        lemma_chunk_end_bounds(frames, i);
    }
}

/// The run decomposition of a whole frame sequence whose first page
/// has virtual page index `base`.
pub open spec fn spec_compress(frames: Seq<PageFrame>, base: int) -> Seq<(int, PageFrame, int)> {
    spec_compress_from(frames, 0, base)
}

/// The frame of the page `i` places into a run of `len` pages whose
/// last page decodes to `tail`: an absent run repeats its tail, a
/// resident or swapped run steps its scalar back from the tail.
pub open spec fn spec_run_frame_at(tail: PageFrame, len: int, i: int) -> PageFrame {
    match tail.page_location {
        PageLocation::Absent => tail,
        PageLocation::Ram { pfn } => PageFrame {
            page_location: PageLocation::Ram { pfn: (pfn - (len - 1 - i)) as u64 },
            is_file_page: tail.is_file_page,
            is_soft_dirty: tail.is_soft_dirty,
        },
        PageLocation::Swap { swap_type, swap_offset } => PageFrame {
            page_location: PageLocation::Swap {
                swap_type,
                swap_offset: (swap_offset - (len - 1 - i)) as u64,
            },
            is_file_page: tail.is_file_page,
            is_soft_dirty: tail.is_soft_dirty,
        },
    }
}

/// A run expanded back to its `len` per-page frames.
pub open spec fn spec_expand_run(tail: PageFrame, len: int) -> Seq<PageFrame> {
    Seq::new(len as nat, |i: int| spec_run_frame_at(tail, len, i))
}

/// All runs expanded and concatenated, in map order.
pub open spec fn spec_expand(runs: Seq<(int, PageFrame, int)>) -> Seq<PageFrame>
    decreases runs.len(),
{
    if runs.len() == 0 {
        seq![]
    } else {
        spec_expand_run(runs[0].1, runs[0].2) + spec_expand(runs.drop_first())
    }
}

/// No two adjacent frames are equal unless they are absent.  Two equal
/// adjacent resident (or swapped) frames would collapse into a run
/// that re-expands as an ascending progression instead of a
/// repetition, so expansion is exact only without them.
pub open spec fn spec_no_repeated_neighbors(frames: Seq<PageFrame>) -> bool {
    forall|k: int|
        0 <= k < frames.len() - 1 && #[trigger] frames[k] == frames[k + 1]
            ==> frames[k].page_location is Absent
}

/// Every pair inside a chunk merges.
proof fn lemma_chunk_end_chain(frames: Seq<PageFrame>, i: int)
    requires
        0 <= i < frames.len(),
    ensures
        forall|k: int|
            i < k < spec_chunk_end(frames, i) ==> spec_merges(
                frames[k - 1],
                #[trigger] frames[k],
            ),
    decreases frames.len() - i,
{
    if i + 1 < frames.len() && spec_merges(frames[i], frames[i + 1]) {
        lemma_chunk_end_chain(frames, i + 1);
    }
}

/// Along a merge chain without repeated non-absent neighbours, the
/// frames keep the flags of the first frame and either all repeat an
/// absent frame or advance their scalar by exactly one per page.
proof fn lemma_chain_shape(frames: Seq<PageFrame>, s: int, d: int)
    requires
        spec_no_repeated_neighbors(frames),
        0 <= s < frames.len(),
        0 <= d,
        s + d < frames.len(),
        forall|k: int| s < k <= s + d ==> spec_merges(frames[k - 1], #[trigger] frames[k]),
    ensures
        frames[s + d].is_file_page == frames[s].is_file_page,
        frames[s + d].is_soft_dirty == frames[s].is_soft_dirty,
        match frames[s].page_location {
            PageLocation::Absent => frames[s + d] == frames[s],
            PageLocation::Ram { pfn } => pfn + d <= u64::MAX && frames[s + d].page_location
                == (PageLocation::Ram { pfn: (pfn + d) as u64 }),
            PageLocation::Swap { swap_type, swap_offset } => swap_offset + d <= u64::MAX && frames[s
                + d].page_location == (PageLocation::Swap {
                swap_type,
                swap_offset: (swap_offset + d) as u64,
            }),
        },
    decreases d,
{
    if d > 0 {
        lemma_chain_shape(frames, s, d - 1);
        let a = frames[s + d - 1];
        let b = frames[s + d];
        assert(spec_merges(a, b));
        if a == b {
            assert(a.page_location is Absent);
        }
    }
}

/// One chunk of the decomposition expands back to exactly the frames
/// it covered.
proof fn lemma_chunk_expand(frames: Seq<PageFrame>, s: int, e: int)
    requires
        spec_no_repeated_neighbors(frames),
        0 <= s < e <= frames.len(),
        forall|k: int| s < k < e ==> spec_merges(frames[k - 1], #[trigger] frames[k]),
    ensures
        spec_expand_run(frames[e - 1], e - s) == frames.subrange(s, e),
{
    let tail = frames[e - 1];
    let len = e - s;
    assert forall|i: int| 0 <= i < len implies #[trigger] spec_run_frame_at(tail, len, i)
        == frames.subrange(s, e)[i] by {
        lemma_chain_shape(frames, s, i);
        lemma_chain_shape(frames, s, e - 1 - s);
    }
    assert(spec_expand_run(frames[e - 1], e - s) =~= frames.subrange(s, e));
}

/// Expansion inverts the decomposition of every suffix.
proof fn lemma_expand_compress_from(frames: Seq<PageFrame>, i: int, base: int)
    requires
        spec_no_repeated_neighbors(frames),
        0 <= i <= frames.len(),
    ensures
        spec_expand(spec_compress_from(frames, i, base)) == frames.subrange(
            i,
            frames.len() as int,
        ),
    decreases frames.len() - i,
{
    if i == frames.len() {
        assert(spec_expand(spec_compress_from(frames, i, base)) =~= frames.subrange(
            i,
            frames.len() as int,
        ));
    } else {
        let e = spec_chunk_end(frames, i);
        lemma_chunk_end_bounds(frames, i);
        lemma_chunk_end_chain(frames, i);
        lemma_chunk_expand(frames, i, e);
        lemma_expand_compress_from(frames, e, base);
        let rest = spec_compress_from(frames, e, base);
        assert((seq![(base + i, frames[e - 1], e - i)] + rest).drop_first() =~= rest);
        assert(frames.subrange(i, e) + frames.subrange(e, frames.len() as int) =~= frames.subrange(
            i,
            frames.len() as int,
        ));
    }
}

/// The runs of a decomposition tile the page range: there is a run
/// exactly when there is a page, the first run is keyed by the base
/// page index, every run covers at least one page, each run starts
/// where the previous one ended, and the last run ends one past the
/// last page.
pub proof fn lemma_compress_structure(frames: Seq<PageFrame>, i: int, base: int)
    requires
        0 <= i <= frames.len(),
    ensures
        ({
            let runs = spec_compress_from(frames, i, base);
            &&& (runs.len() == 0 <==> i == frames.len())
            &&& (forall|k: int| 0 <= k < runs.len() ==> (#[trigger] runs[k]).2 >= 1)
            &&& (runs.len() > 0 ==> runs[0].0 == base + i)
            &&& (forall|k: int|
                0 <= k < runs.len() - 1 ==> (#[trigger] runs[k]).0 + runs[k].2 == runs[k + 1].0)
            &&& (runs.len() > 0 ==> runs.last().0 + runs.last().2 == base + frames.len())
        }),
    decreases frames.len() - i,
{
    if i < frames.len() {
        let e = spec_chunk_end(frames, i);
        lemma_chunk_end_bounds(frames, i);
        lemma_compress_structure(frames, e, base);
        let head = (base + i, frames[e - 1], e - i);
        let rest = spec_compress_from(frames, e, base);
        let runs = spec_compress_from(frames, i, base);
        assert(runs == seq![head] + rest);
        assert(runs[0] == head);
        assert(forall|k: int| 1 <= k < runs.len() ==> (#[trigger] runs[k]) == rest[k - 1]);
        if rest.len() > 0 {
            assert(runs.last() == rest.last());
        }
    }
}

/// Run compression is lossless: expanding every run by its length
/// yields the original per-page frame sequence, whenever no two
/// adjacent frames are equal non-absent frames.
pub proof fn lemma_compress_lossless(frames: Seq<PageFrame>, base: int)
    requires
        spec_no_repeated_neighbors(frames),
    ensures
        spec_expand(spec_compress(frames, base)) == frames,
{
    lemma_expand_compress_from(frames, 0, base);
    assert(frames.subrange(0, frames.len() as int) =~= frames);
}

/// Compress the decoded frames of one region into runs.  `page_start`
/// is the virtual page index of `frames[0]`.
pub fn compress_frames(frames: &Vec<PageFrame>, page_start: usize) -> (r: PageFrameMap)
    requires
        page_start + frames@.len() <= usize::MAX,
    ensures
        r@ == spec_compress(frames@, page_start as int),
{
    let mut runs: Vec<PageFrameRun> = Vec::new();
    let n = frames.len();
    if n == 0 {
        return PageFrameMap { runs };
    }
    let mut run_start: usize = 0;
    let mut i: usize = 1;
    while i < n
        invariant
            n == frames@.len(),
            1 <= i <= n,
            run_start < i,
            page_start + n <= usize::MAX,
            runs@.map_values(|r: PageFrameRun| r@) + spec_compress_from(
                frames@,
                run_start as int,
                page_start as int,
            ) == spec_compress(frames@, page_start as int),
            forall|k: int| run_start < k < i ==> spec_merges(frames@[k - 1], #[trigger] frames@[k]),
        decreases n - i,
    {
        let prev = frames[i - 1];
        let cur = frames[i];
        let merged = prev == cur || prev.is_previous_page(&cur);
        if !merged {
            proof {
                lemma_chunk_end_eq(frames@, run_start as int, i as int);
            }
            let ghost old_runs = runs@;
            runs.push(PageFrameRun { first_page: page_start + run_start, frame: prev, len: i - run_start });
            proof {
                assert(runs@.map_values(|r: PageFrameRun| r@) =~= old_runs.map_values(
                    |r: PageFrameRun| r@,
                ).push((page_start + run_start, frames@[i - 1], i - run_start)));
                assert(old_runs.map_values(|r: PageFrameRun| r@).push(
                    (page_start + run_start, frames@[i - 1], i - run_start),
                ) + spec_compress_from(frames@, i as int, page_start as int) =~= old_runs.map_values(
                    |r: PageFrameRun| r@,
                ) + spec_compress_from(frames@, run_start as int, page_start as int));
            }
            run_start = i;
        }
        i += 1;
    }
    proof {
        lemma_chunk_end_eq(frames@, run_start as int, n as int);
    }
    let ghost old_runs = runs@;
    let last = frames[n - 1];
    runs.push(PageFrameRun { first_page: page_start + run_start, frame: last, len: n - run_start });
    proof {
        assert(runs@.map_values(|r: PageFrameRun| r@) =~= old_runs.map_values(
            |r: PageFrameRun| r@,
        ).push((page_start + run_start, frames@[n as int - 1], n - run_start)));
        assert(old_runs.map_values(|r: PageFrameRun| r@).push(
            (page_start + run_start, frames@[n as int - 1], n - run_start),
        ) + spec_compress_from(frames@, n as int, page_start as int) =~= old_runs.map_values(
            |r: PageFrameRun| r@,
        ) + spec_compress_from(frames@, run_start as int, page_start as int));
        assert(runs@.map_values(|r: PageFrameRun| r@) =~= runs@.map_values(|r: PageFrameRun| r@)
            + spec_compress_from(frames@, n as int, page_start as int));
    }
    PageFrameMap { runs }
}

} // verus!
