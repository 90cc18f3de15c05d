//! Text utilities for the `/proc` records: whitespace tokenization and
//! unsigned number parsing in decimal and hexadecimal.
//!
//! The records under `/proc` separate fields with runs of spaces and
//! tabs; correct field splitting is the heart of the `stat` and `maps`
//! parsers, so it is defined here once, against an explicit model of
//! what the tokens of a string are.

use vstd::prelude::*;

verus! {

/// The separators recognised between fields: the ASCII whitespace
/// characters that appear in `/proc` text.
pub open spec fn is_space(c: char) -> bool {
    c == ' ' || c == '\t' || c == '\n' || c == '\r'
}

/// End of the maximal run of non-space characters starting at `i`.
pub open spec fn spec_token_end(s: Seq<char>, i: int) -> int
    decreases s.len() - i,
{
    if i < 0 || i >= s.len() || is_space(s[i]) {
        i
    } else {
        spec_token_end(s, i + 1)
    }
}

/// `spec_token_end` stays within `[i, s.len()]`.
pub proof fn lemma_token_end_bounds(s: Seq<char>, i: int)
    requires
        0 <= i <= s.len(),
    ensures
        i <= spec_token_end(s, i) <= s.len(),
    decreases s.len() - i,
{
    if i < s.len() && !is_space(s[i]) {
        lemma_token_end_bounds(s, i + 1);
    }
}

/// The whitespace-separated tokens of `s`, starting at position `i`:
/// runs of separators are skipped, and each maximal run of non-space
/// characters is one token.
pub open spec fn spec_tokens_from(s: Seq<char>, i: int) -> Seq<Seq<char>>
    decreases s.len() - i,
        when i >= 0
        via spec_tokens_from_dec
{
    if i < 0 || i >= s.len() {
        seq![]
    } else if is_space(s[i]) {
        spec_tokens_from(s, i + 1)
    } else {
        seq![s.subrange(i, spec_token_end(s, i))] + spec_tokens_from(s, spec_token_end(s, i))
    }
}

#[via_fn]
proof fn spec_tokens_from_dec(s: Seq<char>, i: int) {
    if 0 <= i < s.len() && !is_space(s[i]) {
        lemma_token_end_bounds(s, i + 1);
    }
}

/// The whitespace-separated tokens of `s`.
pub open spec fn spec_tokens(s: Seq<char>) -> Seq<Seq<char>> {
    spec_tokens_from(s, 0)
}

/// Separator test on one character.
pub fn is_space_char(c: char) -> (r: bool)
    ensures
        r == is_space(c),
{
    c == ' ' || c == '\t' || c == '\n' || c == '\r'
}

/// Split `s` on runs of whitespace, as the records under `/proc` are
/// split into fields.
pub fn tokenize(s: &str) -> (r: Vec<String>)
    ensures
        r.deep_view() == spec_tokens(s@),
{
    let n = s.unicode_len();
    let mut r: Vec<String> = Vec::new();
    let mut i: usize = 0;
    while i < n
        invariant
            n == s@.len(),
            i <= n,
            r.deep_view() + spec_tokens_from(s@, i as int) == spec_tokens(s@),
        decreases n - i,
    {
        let c = s.get_char(i);
        if is_space_char(c) {
            i += 1;
        } else {
            let ghost prev = r.deep_view();
            let mut j: usize = i;
            while j < n
                invariant_except_break
                    n == s@.len(),
                    i <= j <= n,
                    spec_token_end(s@, i as int) == spec_token_end(s@, j as int),
                ensures
                    i <= j <= n,
                    spec_token_end(s@, i as int) == j,
                decreases n - j,
            {
                let cj = s.get_char(j);
                if is_space_char(cj) {
                    break ;
                }
                j += 1;
            }
            let token = s.substring_char(i, j).to_owned();
            r.push(token);
            proof {
                assert(r.deep_view() =~= prev.push(s@.subrange(i as int, j as int)));
                assert(prev.push(s@.subrange(i as int, j as int)) + spec_tokens_from(s@, j as int)
                    =~= prev + spec_tokens_from(s@, i as int));
                lemma_token_end_bounds(s@, i as int + 1);
            }
            i = j;
        }
    }
    r
}

/// Value of `c` as a hexadecimal digit, or a negative number when `c`
/// is not one.  Both letter cases are accepted, as `from_str_radix`
/// accepts them.
pub open spec fn spec_hex_digit(c: char) -> int {
    if '0' <= c && c <= '9' {
        c as int - '0' as int
    } else if 'a' <= c && c <= 'f' {
        10 + c as int - 'a' as int
    } else if 'A' <= c && c <= 'F' {
        10 + c as int - 'A' as int
    } else {
        -1
    }
}

/// Value of `c` as a decimal digit, or a negative number otherwise.
pub open spec fn spec_dec_digit(c: char) -> int {
    if '0' <= c && c <= '9' {
        c as int - '0' as int
    } else {
        -1
    }
}

/// Every character of `s` is a hexadecimal digit.
pub open spec fn spec_all_hex(s: Seq<char>) -> bool {
    forall|k: int| 0 <= k < s.len() ==> spec_hex_digit(s[k]) >= 0
}

/// Every character of `s` is a decimal digit.
pub open spec fn spec_all_dec(s: Seq<char>) -> bool {
    forall|k: int| 0 <= k < s.len() ==> spec_dec_digit(s[k]) >= 0
}

/// The number written in `s` in base sixteen, most significant digit
/// first.
pub open spec fn spec_hex_value(s: Seq<char>) -> int
    decreases s.len(),
{
    if s.len() == 0 {
        0
    } else {
        spec_hex_value(s.drop_last()) * 16 + spec_hex_digit(s.last())
    }
}

/// The number written in `s` in base ten, most significant digit first.
pub open spec fn spec_dec_value(s: Seq<char>) -> int
    decreases s.len(),
{
    if s.len() == 0 {
        0
    } else {
        spec_dec_value(s.drop_last()) * 10 + spec_dec_digit(s.last())
    }
}

proof fn lemma_hex_value_nonneg(s: Seq<char>)
    requires
        spec_all_hex(s),
    ensures
        spec_hex_value(s) >= 0,
    decreases s.len(),
{
    if s.len() > 0 {
        assert(spec_all_hex(s.drop_last()));
        lemma_hex_value_nonneg(s.drop_last());
    }
}

proof fn lemma_dec_value_nonneg(s: Seq<char>)
    requires
        spec_all_dec(s),
    ensures
        spec_dec_value(s) >= 0,
    decreases s.len(),
{
    if s.len() > 0 {
        assert(spec_all_dec(s.drop_last()));
        lemma_dec_value_nonneg(s.drop_last());
    }
}

/// A prefix of a digit string never exceeds the whole string's value.
proof fn lemma_hex_prefix_le(s: Seq<char>, i: int)
    requires
        spec_all_hex(s),
        0 <= i <= s.len(),
    ensures
        spec_hex_value(s.take(i)) <= spec_hex_value(s),
    decreases s.len() - i,
{
    if i < s.len() {
        assert(s.take(i + 1).drop_last() =~= s.take(i));
        assert(spec_all_hex(s.take(i)));
        lemma_hex_value_nonneg(s.take(i));
        assert(spec_hex_value(s.take(i + 1)) == spec_hex_value(s.take(i)) * 16 + spec_hex_digit(
            s[i],
        ));
        lemma_hex_prefix_le(s, i + 1);
    } else {
        assert(s.take(i) =~= s);
    }
}

proof fn lemma_dec_prefix_le(s: Seq<char>, i: int)
    requires
        spec_all_dec(s),
        0 <= i <= s.len(),
    ensures
        spec_dec_value(s.take(i)) <= spec_dec_value(s),
    decreases s.len() - i,
{
    if i < s.len() {
        assert(s.take(i + 1).drop_last() =~= s.take(i));
        assert(spec_all_dec(s.take(i)));
        lemma_dec_value_nonneg(s.take(i));
        assert(spec_dec_value(s.take(i + 1)) == spec_dec_value(s.take(i)) * 10 + spec_dec_digit(
            s[i],
        ));
        lemma_dec_prefix_le(s, i + 1);
    } else {
        assert(s.take(i) =~= s);
    }
}

/// Value of one hexadecimal digit character.
fn hex_digit_val(c: char) -> (r: Option<u8>)
    ensures
        r is Some <==> spec_hex_digit(c) >= 0,
        r matches Some(v) ==> v == spec_hex_digit(c),
{
    let u = c as u32;
    if u >= 48 && u <= 57 {
        Some((u - 48) as u8)
    } else if u >= 97 && u <= 102 {
        Some((10 + u - 97) as u8)
    } else if u >= 65 && u <= 70 {
        Some((10 + u - 65) as u8)
    } else {
        None
    }
}

/// Value of one decimal digit character.
fn dec_digit_val(c: char) -> (r: Option<u8>)
    ensures
        r is Some <==> spec_dec_digit(c) >= 0,
        r matches Some(v) ==> v == spec_dec_digit(c),
{
    let u = c as u32;
    if u >= 48 && u <= 57 {
        Some((u - 48) as u8)
    } else {
        None
    }
}

/// Parse `s` as an unsigned hexadecimal number, as the address and
/// offset columns of `maps` are written.  Returns the value exactly
/// when `s` is non-empty, all digits, and the value fits in `usize`.
pub fn parse_hex_usize(s: &str) -> (r: Option<usize>)
    ensures
        r is Some <==> (s@.len() > 0 && spec_all_hex(s@) && spec_hex_value(s@) <= usize::MAX),
        r matches Some(v) ==> v == spec_hex_value(s@),
{
    let n = s.unicode_len();
    if n == 0 {
        return None;
    }
    let mut acc: usize = 0;
    let mut i: usize = 0;
    while i < n
        invariant
            n == s@.len(),
            i <= n,
            spec_all_hex(s@.take(i as int)),
            acc == spec_hex_value(s@.take(i as int)),
        decreases n - i,
    {
        let c = s.get_char(i);
        match hex_digit_val(c) {
            None => {
                proof {
                    assert(!spec_all_hex(s@)) by {
                        assert(spec_hex_digit(s@[i as int]) < 0);
                    }
                }
                return None;
            },
            Some(d) => {
                proof {
                    assert(s@.take(i as int + 1).drop_last() =~= s@.take(i as int));
                }
                let wide: u128 = (acc as u128) * 16 + (d as u128);
                if wide > usize::MAX as u128 {
                    proof {
                        if spec_all_hex(s@) {
                            lemma_hex_prefix_le(s@, i as int + 1);
                        }
                    }
                    return None;
                }
                acc = wide as usize;
                i += 1;
            },
        }
    }
    proof {
        assert(s@.take(n as int) =~= s@);
    }
    Some(acc)
}

/// Parse `s` as an unsigned decimal number, as PIDs are written.
/// Returns the value exactly when `s` is non-empty, all digits, and
/// the value fits in `usize`.
pub fn parse_dec_usize(s: &str) -> (r: Option<usize>)
    ensures
        r is Some <==> (s@.len() > 0 && spec_all_dec(s@) && spec_dec_value(s@) <= usize::MAX),
        r matches Some(v) ==> v == spec_dec_value(s@),
{
    let n = s.unicode_len();
    if n == 0 {
        return None;
    }
    let mut acc: usize = 0;
    let mut i: usize = 0;
    while i < n
        invariant
            n == s@.len(),
            i <= n,
            spec_all_dec(s@.take(i as int)),
            acc == spec_dec_value(s@.take(i as int)),
        decreases n - i,
    {
        let c = s.get_char(i);
        match dec_digit_val(c) {
            None => {
                proof {
                    assert(!spec_all_dec(s@)) by {
                        assert(spec_dec_digit(s@[i as int]) < 0);
                    }
                }
                return None;
            },
            Some(d) => {
                proof {
                    assert(s@.take(i as int + 1).drop_last() =~= s@.take(i as int));
                }
                let wide: u128 = (acc as u128) * 10 + (d as u128);
                if wide > usize::MAX as u128 {
                    proof {
                        if spec_all_dec(s@) {
                            lemma_dec_prefix_le(s@, i as int + 1);
                        }
                    }
                    return None;
                }
                acc = wide as usize;
                i += 1;
            },
        }
    }
    proof {
        assert(s@.take(n as int) =~= s@);
    }
    Some(acc)
}

/// A well-formed token: non-empty and free of separators, as every
/// token the splitter produces is.
pub open spec fn spec_is_token(t: Seq<char>) -> bool {
    t.len() > 0 && forall|k: int| 0 <= k < t.len() ==> !is_space(#[trigger] t[k])
}

/// Everything up to the token end is a non-space character.
proof fn lemma_token_end_nonspace(s: Seq<char>, i: int)
    requires
        0 <= i <= s.len(),
    ensures
        forall|k: int| i <= k < spec_token_end(s, i) ==> !is_space(#[trigger] s[k]),
    decreases s.len() - i,
{
    if i < s.len() && !is_space(s[i]) {
        lemma_token_end_nonspace(s, i + 1);
    }
}

/// The token end is exactly the first separator (or the end of the
/// string) after a run of non-space characters.
proof fn lemma_token_end_prefix(s: Seq<char>, j: int, e: int)
    requires
        0 <= j <= e <= s.len(),
        forall|k: int| j <= k < e ==> !is_space(#[trigger] s[k]),
        e == s.len() || is_space(s[e]),
    ensures
        spec_token_end(s, j) == e,
    decreases e - j,
{
    if j < e {
        lemma_token_end_prefix(s, j + 1, e);
    }
}

/// Token scanning in a suffix mirrors token scanning in the whole.
proof fn lemma_token_end_sub(s: Seq<char>, i: int, j: int)
    requires
        0 <= i,
        0 <= j,
        i + j <= s.len(),
    ensures
        spec_token_end(s.subrange(i, s.len() as int), j) == spec_token_end(s, i + j) - i,
    decreases s.len() - i - j,
{
    if i + j < s.len() && !is_space(s[i + j]) {
        lemma_token_end_sub(s, i, j + 1);
    }
}

/// Tokenizing a suffix mirrors tokenizing the whole from that point.
proof fn lemma_tokens_from_sub(s: Seq<char>, i: int, j: int)
    requires
        0 <= i,
        0 <= j,
        i + j <= s.len(),
    ensures
        spec_tokens_from(s.subrange(i, s.len() as int), j) == spec_tokens_from(s, i + j),
    decreases s.len() - i - j,
{
    let sub = s.subrange(i, s.len() as int);
    if i + j >= s.len() {
    } else if is_space(s[i + j]) {
        lemma_tokens_from_sub(s, i, j + 1);
    } else {
        lemma_token_end_sub(s, i, j);
        let te = spec_token_end(s, i + j);
        lemma_token_end_bounds(s, i + j + 1);
        assert(te == spec_token_end(s, i + j + 1));
        lemma_tokens_from_sub(s, i, te - i);
        assert(sub.subrange(j, te - i) =~= s.subrange(i + j, te));
        assert(spec_tokens_from(sub, j) =~= spec_tokens_from(s, i + j));
    }
}

/// Every token the splitter yields is non-empty and separator-free.
pub proof fn lemma_tokens_are_tokens(s: Seq<char>, i: int)
    requires
        0 <= i <= s.len(),
    ensures
        forall|t: int|
            0 <= t < spec_tokens_from(s, i).len() ==> spec_is_token(
                #[trigger] spec_tokens_from(s, i)[t],
            ),
    decreases s.len() - i,
{
    if i >= s.len() {
    } else if is_space(s[i]) {
        lemma_tokens_are_tokens(s, i + 1);
    } else {
        let te = spec_token_end(s, i);
        lemma_token_end_bounds(s, i + 1);
        assert(te == spec_token_end(s, i + 1));
        lemma_token_end_nonspace(s, i);
        lemma_tokens_are_tokens(s, te);
        let first = s.subrange(i, te);
        assert(spec_is_token(first)) by {
            assert(forall|k: int| 0 <= k < first.len() ==> first[k] == s[i + k]);
        }
        assert(spec_tokens_from(s, i) == seq![first] + spec_tokens_from(s, te));
        assert forall|t: int| 0 <= t < spec_tokens_from(s, i).len() implies spec_is_token(
            #[trigger] spec_tokens_from(s, i)[t],
        ) by {
            if t == 0 {
                assert(spec_tokens_from(s, i)[t] == first);
            } else {
                assert(spec_tokens_from(s, i)[t] == spec_tokens_from(s, te)[t - 1]);
            }
        }
    }
}

/// Splitting the space-joined tokens yields the tokens back: the
/// round trip of the `stat` re-joining.
pub proof fn lemma_join_tokens_roundtrip(ts: Seq<Seq<char>>)
    requires
        forall|i: int| 0 <= i < ts.len() ==> spec_is_token(#[trigger] ts[i]),
    ensures
        spec_tokens(spec_join_spaces(ts)) == ts,
    decreases ts.len(),
{
    reveal_with_fuel(spec_tokens_from, 4);
    let s = spec_join_spaces(ts);
    if ts.len() == 0 {
        assert(spec_tokens(s) =~= ts);
    } else {
        let t0 = ts[0];
        let n0 = t0.len() as int;
        if ts.len() == 1 {
            assert(s == t0);
            assert(forall|k: int| 0 <= k < n0 ==> !is_space(#[trigger] s[k]));
            lemma_token_end_prefix(s, 0, n0);
            assert(s.subrange(0, n0) =~= t0);
            assert(spec_tokens(s) =~= ts);
        } else {
            let rest = ts.drop_first();
            let rj = spec_join_spaces(rest);
            assert(s == t0 + seq![' '] + rj);
            assert(s.len() == n0 + 1 + rj.len());
            assert(forall|k: int| 0 <= k < n0 ==> s[k] == t0[k]);
            assert(s[n0] == ' ');
            lemma_token_end_prefix(s, 0, n0);
            assert(s.subrange(0, n0) =~= t0);
            let sub = s.subrange(n0 + 1, s.len() as int);
            lemma_tokens_from_sub(s, n0 + 1, 0);
            assert(sub =~= rj);
            assert(forall|i: int| 0 <= i < rest.len() ==> #[trigger] rest[i] == ts[i + 1]);
            lemma_join_tokens_roundtrip(rest);
            // walk: the first token, the separator, then the joined rest
            assert(spec_tokens_from(s, 0) == seq![s.subrange(0, n0)] + spec_tokens_from(s, n0));
            assert(spec_tokens_from(s, n0) == spec_tokens_from(s, n0 + 1));
            assert(spec_tokens_from(s, n0 + 1) == spec_tokens_from(sub, 0));
            assert(spec_tokens_from(sub, 0) == spec_tokens(rj));
            assert(spec_tokens(rj) == rest);
            assert(spec_tokens(s) =~= ts);
        }
    }
}

/// First position at or after `from` where `c` occurs in `s`, or the
/// length of `s` when it does not occur.
pub open spec fn spec_find(s: Seq<char>, c: char, from: int) -> int
    decreases s.len() - from,
{
    if from < 0 || from >= s.len() {
        s.len() as int
    } else if s[from] == c {
        from
    } else {
        spec_find(s, c, from + 1)
    }
}

/// `spec_find` stays within `[from, s.len()]`.
pub proof fn lemma_find_bounds(s: Seq<char>, c: char, from: int)
    requires
        0 <= from <= s.len(),
    ensures
        from <= spec_find(s, c, from) <= s.len(),
    decreases s.len() - from,
{
    if from < s.len() && s[from] != c {
        lemma_find_bounds(s, c, from + 1);
    }
}

/// Scan for the first occurrence of `c` at or after `from`.
pub fn find_char(s: &str, c: char, from: usize) -> (r: usize)
    requires
        from <= s@.len(),
    ensures
        r == spec_find(s@, c, from as int),
{
    let n = s.unicode_len();
    let mut j: usize = from;
    while j < n
        invariant_except_break
            n == s@.len(),
            from <= j <= n,
            spec_find(s@, c, from as int) == spec_find(s@, c, j as int),
        ensures
            from <= j <= n,
            spec_find(s@, c, from as int) == j,
        decreases n - j,
    {
        let cj = s.get_char(j);
        if cj == c {
            break ;
        }
        j += 1;
    }
    j
}

/// The lines of `s` starting at position `i`: the text split at every
/// newline character.
pub open spec fn spec_lines_from(s: Seq<char>, i: int) -> Seq<Seq<char>>
    decreases s.len() + 1 - i,
        when i >= 0
        via spec_lines_from_dec
{
    if i < 0 || i >= s.len() {
        seq![]
    } else {
        let e = spec_find(s, '\n', i);
        seq![s.subrange(i, e)] + spec_lines_from(s, e + 1)
    }
}

#[via_fn]
proof fn spec_lines_from_dec(s: Seq<char>, i: int) {
    if 0 <= i < s.len() {
        lemma_find_bounds(s, '\n', i);
    }
}

/// The lines of `s`, as the `maps` table is read line by line.  A
/// trailing newline yields no extra empty line.
pub open spec fn spec_lines(s: Seq<char>) -> Seq<Seq<char>> {
    spec_lines_from(s, 0)
}

/// Split `s` at newline characters.
pub fn split_lines(s: &str) -> (r: Vec<String>)
    ensures
        r.deep_view() == spec_lines(s@),
{
    let n = s.unicode_len();
    let mut r: Vec<String> = Vec::new();
    let mut i: usize = 0;
    while i < n
        invariant
            n == s@.len(),
            i <= n,
            r.deep_view() + spec_lines_from(s@, i as int) == spec_lines(s@),
        decreases n - i,
    {
        let ghost prev = r.deep_view();
        let e = find_char(s, '\n', i);
        proof {
            lemma_find_bounds(s@, '\n', i as int);
        }
        let line = s.substring_char(i, e).to_owned();
        r.push(line);
        proof {
            assert(r.deep_view() =~= prev.push(s@.subrange(i as int, e as int)));
            assert(prev.push(s@.subrange(i as int, e as int)) + spec_lines_from(s@, e as int + 1)
                =~= prev + spec_lines_from(s@, i as int));
        }
        i = if e == n {
            n
        } else {
            e + 1
        };
    }
    r
}

/// The tokens joined back into one string with a single space between
/// each pair, the joining used when the `comm` field was split apart.
pub open spec fn spec_join_spaces(ts: Seq<Seq<char>>) -> Seq<char>
    decreases ts.len(),
{
    if ts.len() == 0 {
        seq![]
    } else if ts.len() == 1 {
        ts[0]
    } else {
        ts[0] + seq![' '] + spec_join_spaces(ts.drop_first())
    }
}

/// Appending one more token to a join appends a space and the token.
pub proof fn lemma_join_push(ts: Seq<Seq<char>>, t: Seq<char>)
    requires
        ts.len() > 0,
    ensures
        spec_join_spaces(ts.push(t)) == spec_join_spaces(ts) + seq![' '] + t,
    decreases ts.len(),
{
    if ts.len() == 1 {
        assert(ts.push(t).drop_first() =~= seq![t]);
        assert(spec_join_spaces(ts.push(t)) == ts.push(t)[0] + seq![' '] + spec_join_spaces(
            seq![t],
        ));
        assert(ts.push(t)[0] == ts[0]);
    } else {
        assert(ts.push(t).drop_first() =~= ts.drop_first().push(t));
        lemma_join_push(ts.drop_first(), t);
        assert(spec_join_spaces(ts.push(t)) == ts[0] + seq![' '] + (spec_join_spaces(ts.drop_first())
            + seq![' '] + t));
        assert(ts[0] + seq![' '] + (spec_join_spaces(ts.drop_first()) + seq![' '] + t) =~= (ts[0]
            + seq![' '] + spec_join_spaces(ts.drop_first())) + seq![' '] + t);
    }
}

/// Join `parts[from..to]` with single spaces, the inverse step of the
/// tokenization for fields that contained whitespace.
pub fn join_range(parts: &Vec<String>, from: usize, to: usize) -> (r: String)
    requires
        from <= to <= parts@.len(),
    ensures
        r@ == spec_join_spaces(parts.deep_view().subrange(from as int, to as int)),
{
    let mut r = String::new();
    let mut i: usize = from;
    while i < to
        invariant
            from <= i <= to <= parts@.len(),
            r@ == spec_join_spaces(parts.deep_view().subrange(from as int, i as int)),
        decreases to - i,
    {
        if i > from {
            r.append(" ");
            proof {
                reveal_strlit(" ");
            }
        }
        r.append(parts[i].as_str());
        proof {
            let dv = parts.deep_view();
            assert(dv.subrange(from as int, i as int + 1) =~= dv.subrange(
                from as int,
                i as int,
            ).push(dv[i as int]));
            if i > from {
                lemma_join_push(dv.subrange(from as int, i as int), dv[i as int]);
                assert(" "@ =~= seq![' ']);
            }
        }
        i += 1;
    }
    r
}

} // verus!
