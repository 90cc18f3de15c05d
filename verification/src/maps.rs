//! Parser for `/proc/[pid]/maps` lines and the per-region physical
//! mapper.
//!
//! A maps line holds `start-end perms offset dev inode [pathname]`,
//! whitespace-separated.  The address range and offset are hexadecimal;
//! the permission field is exactly four characters.  The pathname is
//! the sixth field verbatim; in the rare case of a pathname with
//! spaces the tokens after the first are discarded.  A region's
//! physical backing is computed from a raw `pagemap` read covering its
//! pages and stored as a run-length map.

use vstd::prelude::*;

use crate::LINUX_PAGE_SIZE;
use crate::errors::ProcError;
use crate::physmap::PageFrameMap;
use crate::physmap::compress_frames;
use crate::physmap::decode_pagemap_words;
use crate::physmap::spec_compress;
use crate::physmap::spec_frames_of;
use crate::text::find_char;
use crate::text::lemma_find_bounds;
use crate::text::parse_hex_usize;
use crate::text::spec_all_hex;
use crate::text::spec_find;
use crate::text::spec_hex_value;
use crate::text::spec_tokens;
use crate::text::tokenize;

verus! {

/// Permissions of one mapped region, decoded from the four-character
/// field of `maps`.  When `shared` is false the mapping is private.
#[derive(Clone, Copy, Debug, PartialEq, Eq, Structural)]
pub struct MemoryPermissions {
    /// Position 0 is `r`.
    pub read: bool,
    /// Position 1 is `w`.
    pub write: bool,
    /// Position 2 is `x`.
    pub execute: bool,
    /// Position 3 is `s` for shared, `p` for private.
    pub shared: bool,
}

/// The permissions encoded by the first four characters of `s`.
pub open spec fn spec_perms_of(s: Seq<char>) -> MemoryPermissions {
    MemoryPermissions {
        read: s[0] == 'r',
        write: s[1] == 'w',
        execute: s[2] == 'x',
        shared: s[3] == 's',
    }
}

impl MemoryPermissions {
    /// Decode a permission field of at least four characters, one flag
    /// per fixed position.
    pub fn new_from_str(perm_str: &str) -> (r: Self)
        requires
            perm_str@.len() >= 4,
        ensures
            r == spec_perms_of(perm_str@),
    {
        MemoryPermissions {
            read: perm_str.get_char(0) == 'r',
            write: perm_str.get_char(1) == 'w',
            execute: perm_str.get_char(2) == 'x',
            shared: perm_str.get_char(3) == 's',
        }
    }
}

/// One entry of `/proc/[pid]/maps`: a virtual byte range with its
/// permissions, file offset, optional pathname, and, once the
/// physical mapper has run, the run-length map of its page frames.
#[derive(Debug)]
pub struct MemoryRegion {
    /// Start of the virtual range, inclusive, page-aligned.
    pub v_region_start: usize,
    /// End of the virtual range, exclusive, page-aligned.
    pub v_region_end: usize,
    /// Decoded permission flags.
    pub permissions: MemoryPermissions,
    /// Offset into the mapped file, in bytes.
    pub offset: usize,
    /// Pathname field, absent for anonymous mappings.
    pub pathname: Option<String>,
    /// Physical page-frame runs, present once the pagemap was decoded.
    pub physical_regions: Option<PageFrameMap>,
}

/// `s` is a usable hexadecimal number: non-empty, all digits, and its
/// value fits the machine word.
pub open spec fn spec_hex_fits(s: Seq<char>) -> bool {
    s.len() > 0 && spec_all_hex(s) && spec_hex_value(s) <= usize::MAX
}

/// The meaning of one tokenized maps line: start and end address,
/// permissions, offset, and pathname, or the error when a field is
/// missing or malformed.  The address range must be two page-aligned
/// hexadecimal numbers with start below end; the permission field must
/// be four characters; the pathname is the sixth field, verbatim,
/// absent when there are fewer than six fields.
pub open spec fn spec_parse_maps_fields(fields: Seq<Seq<char>>) -> Result<
    (int, int, MemoryPermissions, int, Option<Seq<char>>),
    ProcError,
> {
    if fields.len() < 3 {
        Err(ProcError::MalformedMaps)
    } else {
        let addr = fields[0];
        let p1 = spec_find(addr, '-', 0);
        if p1 == addr.len() {
            Err(ProcError::MalformedMaps)
        } else {
            let p2 = spec_find(addr, '-', p1 + 1);
            let start_str = addr.subrange(0, p1);
            let end_str = addr.subrange(p1 + 1, p2);
            if !(spec_hex_fits(start_str) && spec_hex_fits(end_str) && spec_hex_fits(fields[2])) {
                Err(ProcError::MalformedMaps)
            } else {
                let v_start = spec_hex_value(start_str);
                let v_end = spec_hex_value(end_str);
                if !(v_start < v_end && v_start % (LINUX_PAGE_SIZE as int) == 0 && v_end % (
                LINUX_PAGE_SIZE as int) == 0) {
                    Err(ProcError::MalformedMaps)
                } else if fields[1].len() != 4 {
                    Err(ProcError::MalformedMaps)
                } else {
                    Ok(
                        (
                            v_start,
                            v_end,
                            spec_perms_of(fields[1]),
                            spec_hex_value(fields[2]),
                            if fields.len() >= 6 {
                                Some(fields[5])
                            } else {
                                None
                            },
                        ),
                    )
                }
            }
        }
    }
}

/// The region fields of `r` are the ones the model `t` names, with no
/// physical map yet.
pub open spec fn spec_region_matches(
    r: MemoryRegion,
    t: (int, int, MemoryPermissions, int, Option<Seq<char>>),
) -> bool {
    &&& r.v_region_start == t.0
    &&& r.v_region_end == t.1
    &&& r.permissions == t.2
    &&& r.offset == t.3
    &&& (r.pathname is Some <==> t.4 is Some)
    &&& (match (r.pathname, t.4) {
        (Some(p), Some(q)) => p@ == q,
        _ => true,
    })
    &&& r.physical_regions is None
}

impl MemoryRegion {
    /// The virtual range is non-empty and page-aligned at both ends.
    pub open spec fn wf(self) -> bool {
        &&& self.v_region_start < self.v_region_end
        &&& self.v_region_start as int % (LINUX_PAGE_SIZE as int) == 0
        &&& self.v_region_end as int % (LINUX_PAGE_SIZE as int) == 0
    }

    /// Virtual page index of the first page of the region.
    pub open spec fn spec_page_start(self) -> int {
        self.v_region_start as int / (LINUX_PAGE_SIZE as int)
    }

    /// Virtual page index one past the last page of the region.
    pub open spec fn spec_page_end(self) -> int {
        self.v_region_end as int / (LINUX_PAGE_SIZE as int)
    }

    /// Number of pages the region covers.
    pub open spec fn spec_page_count(self) -> int {
        self.spec_page_end() - self.spec_page_start()
    }

    /// Build a region from the whitespace-separated fields of one maps
    /// line.  Returns exactly what the line model prescribes, and a
    /// well-formed region on success.
    pub fn new_from_map_fields(map_fields: &Vec<&str>) -> (r: Result<MemoryRegion, ProcError>)
        ensures
            r is Ok <==> spec_parse_maps_fields(map_fields.deep_view()) is Ok,
            (match (r, spec_parse_maps_fields(map_fields.deep_view())) {
                (Ok(reg), Ok(t)) => spec_region_matches(reg, t) && reg.wf(),
                (Err(e), Err(e2)) => e == e2,
                _ => false,
            }),
    {
        let ghost fields = map_fields.deep_view();
        if map_fields.len() < 3 {
            return Err(ProcError::MalformedMaps);
        }
        let addr: &str = map_fields[0];
        proof {
            assert(fields[0] == addr@);
            assert(fields[1] == map_fields@[1]@);
            assert(fields[2] == map_fields@[2]@);
        }
        let addr_len = addr.unicode_len();
        let p1 = find_char(addr, '-', 0);
        if p1 == addr_len {
            return Err(ProcError::MalformedMaps);
        }
        proof {
            lemma_find_bounds(addr@, '-', 0);
        }
        let p2 = find_char(addr, '-', p1 + 1);
        proof {
            lemma_find_bounds(addr@, '-', p1 as int + 1);
        }
        let start_str = addr.substring_char(0, p1);
        let end_str = addr.substring_char(p1 + 1, p2);
        let v_region_start = match parse_hex_usize(start_str) {
            Some(v) => v,
            None => {
                return Err(ProcError::MalformedMaps);
            },
        };
        let v_region_end = match parse_hex_usize(end_str) {
            Some(v) => v,
            None => {
                return Err(ProcError::MalformedMaps);
            },
        };
        let offset = match parse_hex_usize(map_fields[2]) {
            Some(v) => v,
            None => {
                return Err(ProcError::MalformedMaps);
            },
        };
        if !(v_region_start < v_region_end) {
            return Err(ProcError::MalformedMaps);
        }
        if v_region_start % LINUX_PAGE_SIZE != 0 || v_region_end % LINUX_PAGE_SIZE != 0 {
            return Err(ProcError::MalformedMaps);
        }
        let perm_str: &str = map_fields[1];
        if perm_str.unicode_len() != 4 {
            return Err(ProcError::MalformedMaps);
        }
        let permissions = MemoryPermissions::new_from_str(perm_str);
        let pathname = if map_fields.len() >= 6 {
            proof {
                assert(fields[5] == map_fields@[5]@);
            }
            Some(map_fields[5].to_owned())
        } else {
            None
        };
        Ok(
            MemoryRegion {
                v_region_start,
                v_region_end,
                permissions,
                offset,
                pathname,
                physical_regions: None,
            },
        )
    }

    /// Where in the pagemap the words of this region stand: the byte
    /// offset of the first page's entry and the number of bytes to
    /// read, one 64-bit word per page plus one.
    pub fn pagemap_read_window(&self) -> (r: (u64, u64))
        requires
            self.wf(),
        ensures
            r.0 == 8 * self.spec_page_start(),
            r.1 == 8 * (self.spec_page_count() + 1),
    {
        let page_start = (self.v_region_start / LINUX_PAGE_SIZE) as u64;
        let page_end = (self.v_region_end / LINUX_PAGE_SIZE) as u64;
        proof {
            vstd::arithmetic::div_mod::lemma_div_is_ordered(
                self.v_region_start as int,
                self.v_region_end as int,
                LINUX_PAGE_SIZE as int,
            );
            vstd::arithmetic::div_mod::lemma_div_is_ordered(
                self.v_region_end as int,
                usize::MAX as int,
                LINUX_PAGE_SIZE as int,
            );
            assert(usize::MAX as int / (LINUX_PAGE_SIZE as int) < 0x10_0000_0000_0000);
        }
        (page_start * 8, (page_end - page_start + 1) * 8)
    }

    /// Decode the raw `pagemap` bytes covering this region and store
    /// the run-length map of its page frames.  The caller reads, from
    /// byte offset `page_start * 8` of the pagemap, one 64-bit word
    /// for each page of the region plus one more; a buffer of any
    /// other size counts as a failed read.  The last word read is not
    /// part of the region and is dropped.
    pub fn fill_physical_maps(&mut self, pagemap_bytes: &Vec<u8>) -> (r: Result<(), ProcError>)
        requires
            old(self).wf(),
        ensures
            r is Ok <==> pagemap_bytes@.len() == 8 * (old(self).spec_page_count() + 1),
            (match r {
                Err(e) => e == ProcError::PagemapIo && *final(self) == *old(self),
                Ok(()) => {
                    &&& final(self).v_region_start == old(self).v_region_start
                    &&& final(self).v_region_end == old(self).v_region_end
                    &&& final(self).permissions == old(self).permissions
                    &&& final(self).offset == old(self).offset
                    &&& final(self).pathname == old(self).pathname
                    &&& (final(self).physical_regions matches Some(m) && m@ == spec_compress(
                        spec_frames_of(pagemap_bytes@, old(self).spec_page_count()),
                        old(self).spec_page_start(),
                    ))
                },
            }),
    {
        let page_start = self.v_region_start / LINUX_PAGE_SIZE;
        let page_end = self.v_region_end / LINUX_PAGE_SIZE;
        proof {
            vstd::arithmetic::div_mod::lemma_div_is_ordered(
                self.v_region_start as int,
                self.v_region_end as int,
                LINUX_PAGE_SIZE as int,
            );
        }
        let n_pages = page_end - page_start;
        let expected: u128 = (n_pages as u128 + 1) * 8;
        if pagemap_bytes.len() as u128 != expected {
            return Err(ProcError::PagemapIo);
        }
        let frames = decode_pagemap_words(pagemap_bytes, n_pages);
        let map = compress_frames(&frames, page_start);
        self.physical_regions = Some(map);
        Ok(())
    }

    /// Parse one line of `maps`: split it on whitespace and build the
    /// region its fields describe.
    pub fn parse_maps_line(line: &str) -> (r: Result<MemoryRegion, ProcError>)
        ensures
            r is Ok <==> spec_parse_maps_fields(spec_tokens(line@)) is Ok,
            (match (r, spec_parse_maps_fields(spec_tokens(line@))) {
                (Ok(reg), Ok(t)) => spec_region_matches(reg, t) && reg.wf(),
                (Err(e), Err(e2)) => e == e2,
                _ => false,
            }),
    {
        let tokens = tokenize(line);
        let fields = as_str_fields(&tokens);
        MemoryRegion::new_from_map_fields(&fields)
    }

    /// Whether the physical mapper has stored page-frame runs for this
    /// region.
    pub fn has_physical_mapping(&self) -> (r: bool)
        ensures
            r == (self.physical_regions is Some),
    {
        self.physical_regions.is_some()
    }
}

/// Borrow each owned token as a string slice, keeping the contents.
pub fn as_str_fields<'a>(tokens: &'a Vec<String>) -> (r: Vec<&'a str>)
    ensures
        r.deep_view() == tokens.deep_view(),
{
    let mut r: Vec<&'a str> = Vec::new();
    let n = tokens.len();
    let mut i: usize = 0;
    while i < n
        invariant
            n == tokens@.len(),
            i <= n,
            r.deep_view() == tokens.deep_view().take(i as int),
        decreases n - i,
    {
        let ghost prev = r.deep_view();
        r.push(tokens[i].as_str());
        proof {
            assert(r.deep_view() =~= prev.push(tokens@[i as int]@));
            assert(prev.push(tokens@[i as int]@) =~= tokens.deep_view().take(i as int + 1));
        }
        i += 1;
    }
    proof {
        assert(tokens.deep_view().take(n as int) =~= tokens.deep_view());
    }
    r
}

} // verus!
