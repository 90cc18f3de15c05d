use memory_map::errors::ProcError;
use memory_map::maps::{MemoryRegion, MemoryPermissions};
use memory_map::process::{ProcessInformation, ProcessMemoryMap};
use memory_map::stat::ProcessState;
use memory_map::text::{parse_dec_usize, parse_hex_usize, tokenize};

/// A stat file whose second field is `comm` and whose remaining
/// fields pad the record to 52 fields after joining.
fn stat_content(pid: &str, comm: &str, state: &str) -> String {
    let mut s = String::new();
    s.push_str(pid);
    s.push(' ');
    s.push_str(comm);
    s.push(' ');
    s.push_str(state);
    for _ in 0..49 {
        s.push_str(" 0");
    }
    s
}

#[test]
fn tokenize_splits_on_whitespace_runs() {
    let tokens = tokenize("  a \t b\nc  ");
    let views: Vec<&str> = tokens.iter().map(|t| t.as_str()).collect();
    assert_eq!(views, vec!["a", "b", "c"]);
}

#[test]
fn tokenize_empty_is_empty() {
    assert_eq!(tokenize("").len(), 0);
    assert_eq!(tokenize(" \t\n").len(), 0);
}

#[test]
fn rejoined_tokens_split_the_same_way() {
    let original = "  12 \t ab  cd\n";
    let tokens = tokenize(original);
    let mut joined = String::new();
    for (i, t) in tokens.iter().enumerate() {
        if i > 0 {
            joined.push(' ');
        }
        joined.push_str(t);
    }
    assert_eq!(joined, "12 ab cd");
    let again = tokenize(&joined);
    assert_eq!(
        tokens.iter().map(|t| t.as_str()).collect::<Vec<_>>(),
        again.iter().map(|t| t.as_str()).collect::<Vec<_>>()
    );
}

#[test]
fn parse_hex_reads_lower_and_upper_case() {
    assert_eq!(parse_hex_usize("ff"), Some(255));
    assert_eq!(parse_hex_usize("FF"), Some(255));
    assert_eq!(parse_hex_usize("0"), Some(0));
    assert_eq!(parse_hex_usize("1000"), Some(4096));
}

#[test]
fn parse_hex_rejects_empty_junk_and_overflow() {
    assert_eq!(parse_hex_usize(""), None);
    assert_eq!(parse_hex_usize("g1"), None);
    assert_eq!(parse_hex_usize("12 "), None);
    // seventeen hex digits exceed a 64-bit word
    assert_eq!(parse_hex_usize("fffffffffffffffff"), None);
    assert_eq!(parse_hex_usize("ffffffffffffffff"), Some(usize::MAX));
}

#[test]
fn parse_dec_reads_pids() {
    assert_eq!(parse_dec_usize("42"), Some(42));
    assert_eq!(parse_dec_usize("0"), Some(0));
    assert_eq!(parse_dec_usize(""), None);
    assert_eq!(parse_dec_usize("4a"), None);
    assert_eq!(parse_dec_usize("-3"), None);
}

#[test]
fn state_codes_decode_to_the_closed_set() {
    assert_eq!(ProcessState::new_from_code('R'), Ok(ProcessState::Running));
    assert_eq!(ProcessState::new_from_code('S'), Ok(ProcessState::Sleeping));
    assert_eq!(ProcessState::new_from_code('D'), Ok(ProcessState::Waiting));
    assert_eq!(ProcessState::new_from_code('Z'), Ok(ProcessState::Zombie));
    assert_eq!(ProcessState::new_from_code('T'), Ok(ProcessState::Stopped));
    assert_eq!(ProcessState::new_from_code('t'), Ok(ProcessState::Tracing));
    assert_eq!(ProcessState::new_from_code('X'), Ok(ProcessState::Dead));
    assert_eq!(ProcessState::new_from_code('I'), Ok(ProcessState::Idle));
    assert_eq!(ProcessState::new_from_code('Q'), Err(ProcError::MalformedStat));
    assert_eq!(ProcessState::new_from_code('r'), Err(ProcError::MalformedStat));
}

#[test]
fn stat_with_embedded_paren_and_space() {
    let content = stat_content("42", "(bad )name)", "R");
    let p = ProcessInformation::parse_stat(&content).unwrap();
    assert_eq!(p.pid, 42);
    assert_eq!(p.comm, "bad )name");
    assert_eq!(p.state, ProcessState::Running);
    assert!(p.memory().is_none());
}

#[test]
fn comm_of_nested_parens_keeps_the_inner_pair() {
    let content = stat_content("7", "(())", "S");
    let p = ProcessInformation::parse_stat(&content).unwrap();
    assert_eq!(p.comm, "()");
}

#[test]
fn comm_keeps_interior_right_paren() {
    let content = stat_content("5", "((ab)cd)", "S");
    let p = ProcessInformation::parse_stat(&content).unwrap();
    assert_eq!(p.comm, "(ab)cd");
}

#[test]
fn comm_with_paren_mid_token() {
    // the name token itself ends with ')' only at its true end
    let content = stat_content("5", "(ab)cd)", "S");
    let p = ProcessInformation::parse_stat(&content).unwrap();
    assert_eq!(p.comm, "ab)cd");
}

#[test]
fn stat_without_closing_paren_is_malformed() {
    let content = stat_content("42", "(noend", "R");
    assert_eq!(
        ProcessInformation::parse_stat(&content).unwrap_err(),
        ProcError::MalformedStat
    );
}

#[test]
fn stat_with_wrong_field_count_is_malformed() {
    assert_eq!(
        ProcessInformation::parse_stat("42 (a) R 1 2 3").unwrap_err(),
        ProcError::MalformedStat
    );
}

#[test]
fn stat_with_unknown_state_is_malformed() {
    let content = stat_content("42", "(a)", "Q");
    assert_eq!(
        ProcessInformation::parse_stat(&content).unwrap_err(),
        ProcError::MalformedStat
    );
}

#[test]
fn stat_with_unparseable_pid_is_malformed() {
    let content = stat_content("abc", "(a)", "R");
    assert_eq!(
        ProcessInformation::parse_stat(&content).unwrap_err(),
        ProcError::MalformedStat
    );
}

#[test]
fn maps_line_without_pathname() {
    let r = MemoryRegion::parse_maps_line("7ffd1c000000-7ffd1c021000 rw-p 00000000 00:00 0")
        .unwrap();
    assert_eq!(r.v_region_start, 0x7ffd_1c00_0000);
    assert_eq!(r.v_region_end, 0x7ffd_1c02_1000);
    assert!(r.permissions.read);
    assert!(r.permissions.write);
    assert!(!r.permissions.execute);
    assert!(!r.permissions.shared);
    assert_eq!(r.offset, 0);
    assert!(r.pathname.is_none());
    assert!(!r.has_physical_mapping());
}

#[test]
fn maps_line_with_file_pathname() {
    let r = MemoryRegion::parse_maps_line(
        "5555e6a00000-5555e6a21000 r-xp 00001000 08:01 12345 /usr/bin/cat",
    )
    .unwrap();
    assert!(r.permissions.read);
    assert!(!r.permissions.write);
    assert!(r.permissions.execute);
    assert!(!r.permissions.shared);
    assert_eq!(r.offset, 0x1000);
    assert_eq!(r.pathname.as_deref(), Some("/usr/bin/cat"));
}

#[test]
fn maps_line_with_heap_pseudo_pathname() {
    let r = MemoryRegion::parse_maps_line(
        "55a1b2c00000-55a1b2c21000 rw-p 00000000 00:00 0 [heap]",
    )
    .unwrap();
    assert_eq!(r.pathname.as_deref(), Some("[heap]"));
    assert_eq!(r.offset, 0);
    assert!(r.permissions.read && r.permissions.write);
}

#[test]
fn maps_line_with_shared_mapping() {
    let r = MemoryRegion::parse_maps_line("0-1000 rw-s 00000000 00:00 0").unwrap();
    assert!(r.permissions.shared);
}

#[test]
fn malformed_maps_lines_are_rejected() {
    // too few fields
    assert_eq!(
        MemoryRegion::parse_maps_line("0-1000 rw-p").unwrap_err(),
        ProcError::MalformedMaps
    );
    // no dash in the address field
    assert_eq!(
        MemoryRegion::parse_maps_line("1000 rw-p 0 00:00 0").unwrap_err(),
        ProcError::MalformedMaps
    );
    // start not below end
    assert_eq!(
        MemoryRegion::parse_maps_line("2000-1000 rw-p 0 00:00 0").unwrap_err(),
        ProcError::MalformedMaps
    );
    // unaligned bounds
    assert_eq!(
        MemoryRegion::parse_maps_line("10-2000 rw-p 0 00:00 0").unwrap_err(),
        ProcError::MalformedMaps
    );
    // permission field of the wrong width
    assert_eq!(
        MemoryRegion::parse_maps_line("1000-2000 rw-ps 0 00:00 0").unwrap_err(),
        ProcError::MalformedMaps
    );
    // non-hex address
    assert_eq!(
        MemoryRegion::parse_maps_line("zzzz-2000 rw-p 0 00:00 0").unwrap_err(),
        ProcError::MalformedMaps
    );
}

#[test]
fn permissions_decode_fixed_positions() {
    let p = MemoryPermissions::new_from_str("rwxs");
    assert!(p.read && p.write && p.execute && p.shared);
    let q = MemoryPermissions::new_from_str("---p");
    assert!(!q.read && !q.write && !q.execute && !q.shared);
}

#[test]
fn memory_map_text_skips_bad_lines() {
    let text = "7ffd1c000000-7ffd1c021000 rw-p 00000000 00:00 0\n\
                not a maps line\n\
                5555e6a00000-5555e6a21000 r-xp 00001000 08:01 12345 /usr/bin/cat\n";
    let m = ProcessMemoryMap::new_from_maps_text(text);
    assert_eq!(m.regions.len(), 2);
    assert_eq!(m.regions[0].v_region_start, 0x7ffd_1c00_0000);
    assert_eq!(m.regions[1].pathname.as_deref(), Some("/usr/bin/cat"));
}

#[test]
fn has_physical_map_needs_loaded_physical_data() {
    let content = stat_content("9", "(x)", "R");
    let mut p = ProcessInformation::parse_stat(&content).unwrap();
    assert!(!p.has_physical_map());

    let mut m = ProcessMemoryMap::new_from_maps_text("0-3000 rw-p 00000000 00:00 0");
    assert_eq!(m.regions.len(), 1);
    assert!(!m.regions[0].has_physical_mapping());

    let mut bytes = Vec::new();
    for w in [0u64, 0, 0, 0] {
        bytes.extend_from_slice(&w.to_le_bytes());
    }
    m.regions[0].fill_physical_maps(&bytes).unwrap();
    p.set_memory(m);
    assert!(p.has_physical_map());
    assert!(p.memory().is_some());
}

#[test]
fn error_descriptions_are_distinct() {
    let all = [
        ProcError::NotAccessible,
        ProcError::MalformedStat,
        ProcError::MalformedMaps,
        ProcError::PagemapIo,
        ProcError::ProducerStopped,
    ];
    for (i, a) in all.iter().enumerate() {
        for (j, b) in all.iter().enumerate() {
            assert_eq!(i == j, a.describe() == b.describe());
        }
    }
}
