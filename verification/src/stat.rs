//! Decoder for the positional `/proc/[pid]/stat` record.
//!
//! The second field of `stat` is the program name, wrapped in
//! parentheses; the kernel does not escape it, so it may contain
//! spaces and closing parentheses as data.  Tokens are therefore
//! re-joined from field one rightward until the joined text ends with
//! a closing parenthesis, and only then is the record split into its
//! 52 fields.

use vstd::prelude::*;

use crate::errors::ProcError;
use crate::text::join_range;
use crate::text::spec_join_spaces;

verus! {

/// Scheduler state of a process, the third `stat` field, encoded as
/// one character.
#[derive(Clone, Copy, Debug, PartialEq, Eq, Structural)]
pub enum ProcessState {
    /// `R`
    Running,
    /// `S`
    Sleeping,
    /// `D`, uninterruptible wait
    Waiting,
    /// `Z`
    Zombie,
    /// `T`
    Stopped,
    /// `t`, stopped by a tracer
    Tracing,
    /// `X`
    Dead,
    /// `I`
    Idle,
}

/// The state a code character denotes, if any.
pub open spec fn spec_state_of_code(c: char) -> Option<ProcessState> {
    if c == 'R' {
        Some(ProcessState::Running)
    } else if c == 'S' {
        Some(ProcessState::Sleeping)
    } else if c == 'D' {
        Some(ProcessState::Waiting)
    } else if c == 'Z' {
        Some(ProcessState::Zombie)
    } else if c == 'T' {
        Some(ProcessState::Stopped)
    } else if c == 't' {
        Some(ProcessState::Tracing)
    } else if c == 'X' {
        Some(ProcessState::Dead)
    } else if c == 'I' {
        Some(ProcessState::Idle)
    } else {
        None
    }
}

impl ProcessState {
    /// Decode one state character; any character outside the closed
    /// set is a parse error.
    pub fn new_from_code(state_code: char) -> (r: Result<ProcessState, ProcError>)
        ensures
            r is Ok <==> spec_state_of_code(state_code) is Some,
            (match r {
                Ok(s) => spec_state_of_code(state_code) == Some(s),
                Err(e) => e == ProcError::MalformedStat,
            }),
    {
        match state_code {
            'R' => Ok(ProcessState::Running),
            'S' => Ok(ProcessState::Sleeping),
            'D' => Ok(ProcessState::Waiting),
            'Z' => Ok(ProcessState::Zombie),
            'T' => Ok(ProcessState::Stopped),
            't' => Ok(ProcessState::Tracing),
            'X' => Ok(ProcessState::Dead),
            'I' => Ok(ProcessState::Idle),
            _ => Err(ProcError::MalformedStat),
        }
    }
}

/// First index at or after `i` whose token ends with a closing
/// parenthesis, or the number of tokens when there is none.
pub open spec fn spec_name_end(ts: Seq<Seq<char>>, i: int) -> int
    decreases ts.len() - i,
{
    if i < 0 || i >= ts.len() {
        ts.len() as int
    } else if ts[i].len() > 0 && ts[i].last() == ')' {
        i
    } else {
        spec_name_end(ts, i + 1)
    }
}

/// The field list of a tokenized `stat` record after the program name
/// is re-joined: token 0 stays, tokens 1 through the first one ending
/// with `)` are joined with single spaces and stripped of their first
/// and last character, and the remaining tokens follow unchanged.
/// Fails when there is no name to join, no token ends with `)`, or
/// the joined name is too short to strip.
pub open spec fn spec_joined_stat_fields(ts: Seq<Seq<char>>) -> Result<Seq<Seq<char>>, ProcError> {
    if ts.len() < 2 {
        Err(ProcError::MalformedStat)
    } else {
        let ne = spec_name_end(ts, 1);
        if ne == ts.len() {
            Err(ProcError::MalformedStat)
        } else {
            let joined = spec_join_spaces(ts.subrange(1, ne + 1));
            if joined.len() < 2 {
                Err(ProcError::MalformedStat)
            } else {
                let comm = joined.subrange(1, joined.len() - 1);
                Ok(seq![ts[0], comm] + ts.subrange(ne + 1, ts.len() as int))
            }
        }
    }
}

/// The program name keeps its interior verbatim: the `comm` field of
/// a successfully joined record is exactly the space-joined name
/// tokens with the outer character pair removed, so interior
/// whitespace and interior parentheses survive as data and the outer
/// wrapping parentheses never appear in it.
pub proof fn lemma_comm_is_joined_interior(ts: Seq<Seq<char>>)
    requires
        spec_joined_stat_fields(ts) is Ok,
    ensures
        ({
            let ne = spec_name_end(ts, 1);
            let joined = spec_join_spaces(ts.subrange(1, ne + 1));
            spec_joined_stat_fields(ts)->Ok_0[1] == joined.subrange(1, joined.len() - 1)
        }),
{
}

/// Does `s` end with a closing parenthesis?
fn ends_with_rparen(s: &str) -> (r: bool)
    ensures
        r == (s@.len() > 0 && s@.last() == ')'),
{
    let n = s.unicode_len();
    n > 0 && s.get_char(n - 1) == ')'
}

/// Re-join the program name of a tokenized `stat` record, as
/// `spec_joined_stat_fields` prescribes: the name may contain spaces
/// and closing parentheses as data, so tokens are absorbed until one
/// ends with `)`, and only the outermost parenthesis pair is removed.
pub fn join_comm_fields(stat_fields: &Vec<String>) -> (r: Result<Vec<String>, ProcError>)
    ensures
        r is Ok <==> spec_joined_stat_fields(stat_fields.deep_view()) is Ok,
        (match (r, spec_joined_stat_fields(stat_fields.deep_view())) {
            (Ok(v), Ok(m)) => v.deep_view() == m,
            (Err(e), Err(e2)) => e == e2,
            _ => false,
        }),
{
    let ghost ts = stat_fields.deep_view();
    let n = stat_fields.len();
    if n < 2 {
        return Err(ProcError::MalformedStat);
    }
    let mut ne: usize = 1;
    while ne < n
        invariant_except_break
            n == ts.len(),
            ts == stat_fields.deep_view(),
            1 <= ne <= n,
            spec_name_end(ts, 1) == spec_name_end(ts, ne as int),
        ensures
            1 <= ne <= n,
            n == ts.len(),
            ts == stat_fields.deep_view(),
            spec_name_end(ts, 1) == ne,
        decreases n - ne,
    {
        proof {
            assert(ts[ne as int] == stat_fields@[ne as int]@);
        }
        if ends_with_rparen(stat_fields[ne].as_str()) {
            break ;
        }
        ne += 1;
    }
    if ne == n {
        return Err(ProcError::MalformedStat);
    }
    let joined = join_range(stat_fields, 1, ne + 1);
    let jl = joined.unicode_len();
    if jl < 2 {
        return Err(ProcError::MalformedStat);
    }
    let comm = joined.as_str().substring_char(1, jl - 1).to_owned();
    let ghost joined_s = spec_join_spaces(ts.subrange(1, ne as int + 1));
    let ghost comm_s = joined_s.subrange(1, joined_s.len() - 1);
    let mut out: Vec<String> = Vec::new();
    out.push(stat_fields[0].clone());
    out.push(comm);
    proof {
        assert(ts[0] == stat_fields@[0]@);
        assert(out.deep_view() =~= seq![ts[0], comm_s] + ts.subrange(ne as int + 1, ne as int + 1));
    }
    let mut i: usize = ne + 1;
    while i < n
        invariant
            n == ts.len(),
            ts == stat_fields.deep_view(),
            ne + 1 <= i <= n,
            out.deep_view() == seq![ts[0], comm_s] + ts.subrange(ne + 1, i as int),
        decreases n - i,
    {
        let ghost prev_dv = out.deep_view();
        out.push(stat_fields[i].clone());
        proof {
            assert(ts[i as int] == stat_fields@[i as int]@);
            assert(out.deep_view() =~= prev_dv.push(ts[i as int]));
            assert(prev_dv.push(ts[i as int]) =~= seq![ts[0], comm_s] + ts.subrange(
                ne as int + 1,
                i as int + 1,
            ));
        }
        i += 1;
    }
    proof {
        assert(out.deep_view() == seq![ts[0], comm_s] + ts.subrange(ne as int + 1, n as int));
    }
    Ok(out)
}

} // verus!
