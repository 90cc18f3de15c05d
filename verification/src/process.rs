//! Per-process records: the memory map built from the `maps` table
//! and the process metadata built from the `stat` record.

use vstd::prelude::*;

use crate::errors::ProcError;
use crate::maps::MemoryRegion;
use crate::maps::as_str_fields;
use crate::maps::spec_parse_maps_fields;
use crate::maps::spec_region_matches;
use crate::stat::ProcessState;
use crate::stat::join_comm_fields;
use crate::stat::spec_joined_stat_fields;
use crate::stat::spec_state_of_code;
use crate::text::parse_dec_usize;
use crate::text::spec_all_dec;
use crate::text::spec_dec_value;
use crate::text::spec_lines;
use crate::text::spec_tokens;
use crate::text::split_lines;
use crate::text::tokenize;

verus! {

/// The memory map of one process: its regions in the order the
/// `maps` table lists them, kernel-sorted by virtual address.
#[derive(Debug)]
pub struct ProcessMemoryMap {
    /// The parsed regions, in file order.
    pub regions: Vec<MemoryRegion>,
}

/// The region models of the parseable lines, in order; malformed
/// lines are skipped and the rest of the table still parses.
pub open spec fn spec_regions_of_lines(lines: Seq<Seq<char>>) -> Seq<
    (int, int, crate::maps::MemoryPermissions, int, Option<Seq<char>>),
>
    decreases lines.len(),
{
    if lines.len() == 0 {
        seq![]
    } else {
        let rest = spec_regions_of_lines(lines.drop_first());
        match spec_parse_maps_fields(spec_tokens(lines[0])) {
            Ok(t) => seq![t] + rest,
            Err(_) => rest,
        }
    }
}

/// Adding one line to the front prepends its region when it parses.
proof fn lemma_regions_of_lines_take(lines: Seq<Seq<char>>, i: int)
    requires
        0 <= i < lines.len(),
    ensures
        spec_regions_of_lines(lines.take(i + 1)) == spec_regions_of_lines(lines.take(i)) + (
        match spec_parse_maps_fields(spec_tokens(lines[i])) {
            Ok(t) => seq![t],
            Err(_) => seq![],
        }),
    decreases i,
{
    let a = lines.take(i + 1);
    let b = lines.take(i);
    if i == 0 {
        assert(a =~= seq![lines[0]]);
        assert(b =~= Seq::<Seq<char>>::empty());
        assert(a.drop_first() =~= Seq::<Seq<char>>::empty());
        match spec_parse_maps_fields(spec_tokens(lines[0])) {
            Ok(t) => {
                assert(spec_regions_of_lines(a) =~= seq![t]);
            },
            Err(_) => {
                assert(spec_regions_of_lines(a) =~= Seq::empty());
            },
        }
    } else {
        lemma_regions_of_lines_take(lines.drop_first(), i - 1);
        assert(a.drop_first() =~= lines.drop_first().take(i));
        assert(b.drop_first() =~= lines.drop_first().take(i - 1));
        assert(a[0] == lines[0]);
        assert(b[0] == lines[0]);
        assert(lines.drop_first()[i - 1] == lines[i]);
        match spec_parse_maps_fields(spec_tokens(lines[0])) {
            Ok(t0) => {
                match spec_parse_maps_fields(spec_tokens(lines[i])) {
                    Ok(t) => {
                        assert((seq![t0] + spec_regions_of_lines(lines.drop_first().take(i - 1)))
                            + seq![t] =~= seq![t0] + (spec_regions_of_lines(
                            lines.drop_first().take(i - 1),
                        ) + seq![t]));
                    },
                    Err(_) => {},
                }
            },
            Err(_) => {},
        }
    }
}

/// The regions of `rs` match the models of `ms` pointwise, each
/// well formed and without physical data yet.
pub open spec fn spec_regions_match(
    rs: Seq<MemoryRegion>,
    ms: Seq<(int, int, crate::maps::MemoryPermissions, int, Option<Seq<char>>)>,
) -> bool {
    &&& rs.len() == ms.len()
    &&& forall|i: int|
        0 <= i < rs.len() ==> spec_region_matches(#[trigger] rs[i], ms[i]) && rs[i].wf()
}

impl ProcessMemoryMap {
    /// Parse the whole text of a `maps` table.  Each line becomes one
    /// region; a malformed line is skipped and the remainder of the
    /// table still parses, as one bad mapping must not hide the rest.
    pub fn new_from_maps_text(maps_text: &str) -> (r: ProcessMemoryMap)
        ensures
            spec_regions_match(r.regions@, spec_regions_of_lines(spec_lines(maps_text@))),
    {
        let lines = split_lines(maps_text);
        let mut regions: Vec<MemoryRegion> = Vec::new();
        let n = lines.len();
        let ghost lv = lines.deep_view();
        let mut i: usize = 0;
        while i < n
            invariant
                n == lv.len(),
                lv == lines.deep_view(),
                i <= n,
                spec_regions_match(regions@, spec_regions_of_lines(lv.take(i as int))),
            decreases n - i,
        {
            proof {
                assert(lv[i as int] == lines@[i as int]@);
            }
            let ghost prev = regions@;
            match MemoryRegion::parse_maps_line(lines[i].as_str()) {
                Ok(region) => {
                    regions.push(region);
                },
                Err(_) => {},
            }
            proof {
                lemma_regions_of_lines_take(lv, i as int);
            }
            i += 1;
        }
        proof {
            assert(lv.take(n as int) =~= lv);
        }
        ProcessMemoryMap { regions }
    }
}

/// One process as the inspector reports it: PID, program name, state,
/// and, when loaded, the memory map.
#[derive(Debug)]
pub struct ProcessInformation {
    /// The process identifier, the first `stat` field.
    pub pid: usize,
    /// The program name with its outer parentheses stripped; interior
    /// whitespace and parentheses are data and are preserved.
    pub comm: String,
    /// The scheduler state, from the third `stat` field.
    pub state: ProcessState,
    /// The memory map, absent on a metadata-only record.
    pub memory: Option<ProcessMemoryMap>,
}

/// `s` is a usable decimal number: non-empty, all digits, fits the
/// machine word.
pub open spec fn spec_dec_fits(s: Seq<char>) -> bool {
    s.len() > 0 && spec_all_dec(s) && spec_dec_value(s) <= usize::MAX
}

/// The record encoded by an already-joined `stat` field list: PID from
/// field 0, program name verbatim from field 1, state from the first
/// character of field 2.  There must be exactly 52 fields, a parseable
/// PID and a known state character.
pub open spec fn spec_stat_record_of_fields(fields: Seq<Seq<char>>) -> Result<
    (int, Seq<char>, ProcessState),
    ProcError,
> {
    if fields.len() != 52 {
        Err(ProcError::MalformedStat)
    } else if !spec_dec_fits(fields[0]) {
        Err(ProcError::MalformedStat)
    } else if fields[2].len() == 0 {
        Err(ProcError::MalformedStat)
    } else {
        match spec_state_of_code(fields[2][0]) {
            None => Err(ProcError::MalformedStat),
            Some(st) => Ok((spec_dec_value(fields[0]), fields[1], st)),
        }
    }
}

/// The record encoded by a whole `stat` file: tokenize, re-join the
/// program name, then read the 52 fields.
pub open spec fn spec_parse_stat(s: Seq<char>) -> Result<(int, Seq<char>, ProcessState), ProcError> {
    match spec_joined_stat_fields(spec_tokens(s)) {
        Err(e) => Err(e),
        Ok(fields) => spec_stat_record_of_fields(fields),
    }
}

/// Re-joining a tokenization with single spaces yields a
/// whitespace-collapsed form of the original text that splits into
/// the same tokens, and a `stat` record decoded from it equals the
/// record decoded from the original text: parsing depends on the
/// tokens alone, and the tokens survive the round trip.
pub proof fn lemma_stat_rejoin_roundtrip(s: Seq<char>)
    ensures
        spec_tokens(crate::text::spec_join_spaces(spec_tokens(s))) == spec_tokens(s),
        spec_parse_stat(crate::text::spec_join_spaces(spec_tokens(s))) == spec_parse_stat(s),
{
    crate::text::lemma_tokens_are_tokens(s, 0);
    crate::text::lemma_join_tokens_roundtrip(spec_tokens(s));
}

impl ProcessInformation {
    /// Build a metadata-only record from an already-joined `stat`
    /// field list, as `spec_stat_record_of_fields` prescribes.
    pub fn new_from_stat(stat_fields: &Vec<String>) -> (r: Result<ProcessInformation, ProcError>)
        ensures
            r is Ok <==> spec_stat_record_of_fields(stat_fields.deep_view()) is Ok,
            (match (r, spec_stat_record_of_fields(stat_fields.deep_view())) {
                (Ok(p), Ok(t)) => p.pid == t.0 && p.comm@ == t.1 && p.state == t.2 && p.memory
                    is None,
                (Err(e), Err(e2)) => e == e2,
                _ => false,
            }),
    {
        let ghost fields = stat_fields.deep_view();
        if stat_fields.len() != 52 {
            return Err(ProcError::MalformedStat);
        }
        proof {
            assert(fields[0] == stat_fields@[0]@);
            assert(fields[1] == stat_fields@[1]@);
            assert(fields[2] == stat_fields@[2]@);
        }
        let pid = match parse_dec_usize(stat_fields[0].as_str()) {
            Some(v) => v,
            None => {
                return Err(ProcError::MalformedStat);
            },
        };
        let state_field: &str = stat_fields[2].as_str();
        if state_field.unicode_len() == 0 {
            return Err(ProcError::MalformedStat);
        }
        let state = match ProcessState::new_from_code(state_field.get_char(0)) {
            Ok(s) => s,
            Err(e) => {
                return Err(e);
            },
        };
        let comm = stat_fields[1].clone();
        Ok(ProcessInformation { pid, comm, state, memory: None })
    }

    /// Parse the whole contents of a `stat` file into a metadata-only
    /// record.
    pub fn parse_stat(content: &str) -> (r: Result<ProcessInformation, ProcError>)
        ensures
            r is Ok <==> spec_parse_stat(content@) is Ok,
            (match (r, spec_parse_stat(content@)) {
                (Ok(p), Ok(t)) => p.pid == t.0 && p.comm@ == t.1 && p.state == t.2 && p.memory
                    is None,
                (Err(e), Err(e2)) => e == e2,
                _ => false,
            }),
    {
        let tokens = tokenize(content);
        let joined = match join_comm_fields(&tokens) {
            Ok(v) => v,
            Err(e) => {
                return Err(e);
            },
        };
        ProcessInformation::new_from_stat(&joined)
    }

    /// The memory map, if one has been loaded.
    pub fn memory(&self) -> (r: &Option<ProcessMemoryMap>)
        ensures
            r == &self.memory,
    {
        &self.memory
    }

    /// Attach a loaded memory map to a metadata-only record.
    pub fn set_memory(&mut self, memory: ProcessMemoryMap)
        ensures
            final(self).pid == old(self).pid,
            final(self).comm == old(self).comm,
            final(self).state == old(self).state,
            final(self).memory matches Some(m) && m == memory,
    {
        self.memory = Some(memory);
    }

    /// A loaded memory map holds physical data for at least one
    /// region.
    pub open spec fn spec_has_physical(self) -> bool {
        match self.memory {
            Some(m) => exists|i: int|
                0 <= i < m.regions@.len() && (#[trigger] m.regions@[i].physical_regions) is Some,
            None => false,
        }
    }

    /// Whether any region of the loaded memory map carries physical
    /// page-frame data.  False on a metadata-only record.
    pub fn has_physical_map(&self) -> (r: bool)
        ensures
            r == self.spec_has_physical(),
    {
        match &self.memory {
            None => false,
            Some(m) => {
                let n = m.regions.len();
                let mut i: usize = 0;
                while i < n
                    invariant
                        self.memory == Some(*m),
                        n == m.regions@.len(),
                        i <= n,
                        forall|k: int|
                            0 <= k < i ==> !((#[trigger] m.regions@[k].physical_regions) is Some),
                    decreases n - i,
                {
                    if m.regions[i].has_physical_mapping() {
                        proof {
                            assert(self.memory.unwrap() == *m);
                            assert((self.memory.unwrap().regions@[i as int].physical_regions)
                                is Some);
                            assert(self.spec_has_physical());
                        }
                        return true;
                    }
                    i += 1;
                }
                false
            },
        }
    }
}

} // verus!
