//! Query construction against the message log: parsing of operator-supplied
//! position ranges, the tail and existence-probe query texts, and the
//! range-query text with its ordered bind parameters.

use vstd::prelude::*;
use vstd::string::StrSliceExecFns;
use vstd::string::StringExecFns;
use crate::text::{dash_count, first_dash_index, int_to_dec, u64_to_string};

verus! {

/// Why a range token was rejected.
#[derive(Clone, Copy, Debug, PartialEq, Eq, Structural)]
pub enum RangeError {
    /// The token does not split into exactly two non-negative integers.
    InvalidRangeFormat,
    /// The token's start lies above its end.
    InvalidRangeOrder,
}

/// A decimal digit character.
pub open spec fn is_digit(c: char) -> bool {
    '0' <= c && c <= '9'
}

/// Numeric value of a digit character.
pub open spec fn digit_val(c: char) -> int {
    c as int - 48
}

/// Value of a sequence of decimal digits, most significant first.
pub open spec fn dec_val(s: Seq<char>) -> int
    decreases s.len(),
{
    if s.len() == 0 {
        0
    } else {
        dec_val(s.drop_last()) * 10 + digit_val(s.last())
    }
}

/// A non-empty, all-digit sequence.
pub open spec fn is_dec_number(s: Seq<char>) -> bool {
    s.len() > 0 && forall|j: int| 0 <= j < s.len() ==> is_digit(s[j])
}

/// The part of a range token before its first `-`.
pub open spec fn start_part(s: Seq<char>) -> Seq<char> {
    s.take(first_dash_index(s))
}

/// The part of a range token after its first `-`.
pub open spec fn end_part(s: Seq<char>) -> Seq<char> {
    s.skip(first_dash_index(s) + 1)
}

/// A well-formed range token: exactly one `-`, a non-negative integer on
/// each side, both small enough for the machine to hold.
pub open spec fn token_well_formed(s: Seq<char>) -> bool {
    &&& dash_count(s) == 1
    &&& is_dec_number(start_part(s))
    &&& is_dec_number(end_part(s))
    &&& dec_val(start_part(s)) <= i64::MAX
    &&& dec_val(end_part(s)) <= i64::MAX
}

/// The start position a well-formed token denotes.
pub open spec fn start_val(s: Seq<char>) -> int {
    dec_val(start_part(s))
}

/// The end position a well-formed token denotes.
pub open spec fn end_val(s: Seq<char>) -> int {
    dec_val(end_part(s))
}

proof fn lemma_dec_val_nonneg(s: Seq<char>)
    requires
        forall|j: int| 0 <= j < s.len() ==> is_digit(s[j]),
    ensures
        dec_val(s) >= 0,
    decreases s.len(),
{
    if s.len() > 0 {
        lemma_dec_val_nonneg(s.drop_last());
    }
}

proof fn lemma_dec_val_take_le(s: Seq<char>, m: int)
    requires
        forall|j: int| 0 <= j < s.len() ==> is_digit(s[j]),
        0 <= m <= s.len(),
    ensures
        dec_val(s.take(m)) <= dec_val(s),
    decreases s.len(),
{
    if m == s.len() {
        assert(s.take(m) =~= s);
    } else {
        assert(s.drop_last().take(m) =~= s.take(m));
        lemma_dec_val_take_le(s.drop_last(), m);
        lemma_dec_val_nonneg(s.drop_last());
    }
}

/// Parses the digits of `s` between `from` and `to` as a non-negative
/// integer; rejects empty or non-digit text and values beyond the machine's
/// signed range.
fn parse_dec_part(s: &str, from: usize, to: usize) -> (r: Option<i64>)
    requires
        from <= to <= s@.len(),
    ensures
        match r {
            Some(v) => is_dec_number(s@.subrange(from as int, to as int)) && 0 <= v && v
                == dec_val(s@.subrange(from as int, to as int)),
            None => !(is_dec_number(s@.subrange(from as int, to as int)) && dec_val(
                s@.subrange(from as int, to as int),
            ) <= i64::MAX),
        },
{
    let ghost part = s@.subrange(from as int, to as int);
    if from == to {
        return None;
    }
    let mut acc: i64 = 0;
    let mut j: usize = from;
    while j < to
        invariant
            from <= j <= to <= s@.len(),
            part == s@.subrange(from as int, to as int),
            forall|l: int| 0 <= l < j - from ==> is_digit(part[l]),
            0 <= acc <= i64::MAX,
            acc == dec_val(part.take(j - from)),
        decreases to - j,
    {
        let c = s.get_char(j);
        proof {
            assert(part[j - from] == s@[j as int]);
        }
        if c < '0' || c > '9' {
            return None;
        }
        let d: i64 = ((c as u32) - 48) as i64;
        proof {
            assert(0 <= d <= 9);
            assert(part.take(j - from + 1).drop_last() =~= part.take(j - from));
            assert(part.take(j - from + 1).last() == part[j - from]);
        }
        if acc > (i64::MAX - d) / 10 {
            proof {
                assert(acc * 10 + d > i64::MAX) by (nonlinear_arith)
                    requires
                        acc > (i64::MAX - d) / 10,
                        0 <= d <= 9,
                        acc >= 0,
                ;
                if is_dec_number(part) {
                    lemma_dec_val_take_le(part, j - from + 1);
                }
            }
            return None;
        }
        proof {
            assert(acc * 10 + d <= i64::MAX) by (nonlinear_arith)
                requires
                    acc <= (i64::MAX - d) / 10,
                    0 <= d <= 9,
                    acc >= 0,
            ;
        }
        acc = acc * 10 + d;
        j = j + 1;
    }
    proof {
        assert(part.take(to - from) =~= part);
    }
    Some(acc)
}

/// Parses an operator-supplied range token `M-N` into its two positions.
///
/// Succeeds exactly on well-formed tokens whose start does not exceed the
/// end; a token that does not split into two non-negative machine-sized
/// integers is an `InvalidRangeFormat`, and a well-formed token with the
/// parts out of order is an `InvalidRangeOrder`.
pub fn parse_range(range: &str) -> (res: Result<(i64, i64), RangeError>)
    ensures
        match res {
            Ok(p) => token_well_formed(range@) && p.0 == start_val(range@) && p.1 == end_val(
                range@,
            ) && p.0 <= p.1,
            Err(RangeError::InvalidRangeFormat) => !token_well_formed(range@),
            Err(RangeError::InvalidRangeOrder) => token_well_formed(range@) && start_val(range@)
                > end_val(range@),
        },
{
    let n = range.unicode_len();
    let mut k: usize = 0;
    let mut cnt: usize = 0;
    let mut found = false;
    let mut i: usize = 0;
    while i < n
        invariant
            i <= n,
            n == range@.len(),
            cnt == dash_count(range@.take(i as int)),
            found == (cnt > 0),
            found ==> k < i && range@[k as int] == '-' && (forall|j: int|
                0 <= j < k ==> range@[j] != '-'),
            !found ==> forall|j: int| 0 <= j < i ==> range@[j] != '-',
            cnt <= i,
        decreases n - i,
    {
        let c = range.get_char(i);
        proof {
            assert(range@.take(i + 1 as int).drop_last() =~= range@.take(i as int));
            assert(range@.take(i + 1 as int).last() == range@[i as int]);
        }
        if c == '-' {
            if !found {
                k = i;
                found = true;
            }
            cnt = cnt + 1;
        }
        i = i + 1;
    }
    proof {
        assert(range@.take(n as int) =~= range@);
    }
    if cnt != 1 {
        return Err(RangeError::InvalidRangeFormat);
    }
    proof {
        crate::text::lemma_first_dash_index(range@, k as int);
        assert(start_part(range@) =~= range@.subrange(0, k as int));
        assert(end_part(range@) =~= range@.subrange(k + 1 as int, n as int));
    }
    let start = match parse_dec_part(range, 0, k) {
        Some(v) => v,
        None => {
            return Err(RangeError::InvalidRangeFormat);
        },
    };
    let end = match parse_dec_part(range, k + 1, n) {
        Some(v) => v,
        None => {
            return Err(RangeError::InvalidRangeFormat);
        },
    };
    if start > end {
        return Err(RangeError::InvalidRangeOrder);
    }
    Ok((start, end))
}

/// One disjunct of the range predicate, over the bind parameters of the
/// range at index `i`.
pub open spec fn range_clause(i: int) -> Seq<char> {
    "(global_position >= $"@ + int_to_dec(2 * i + 1) + " AND global_position <= $"@ + int_to_dec(
        2 * i + 2,
    ) + ")"@
}

/// The OR of the first `n` range disjuncts.
pub open spec fn ranges_clause(n: int) -> Seq<char>
    decreases n,
{
    if n <= 0 {
        Seq::empty()
    } else if n == 1 {
        range_clause(0)
    } else {
        ranges_clause(n - 1) + " OR "@ + range_clause(n - 1)
    }
}

/// The leading text of every row-returning query.
pub open spec fn select_prefix() -> Seq<char> {
    "SELECT global_position, position, id, data, metadata, stream_name, type, time FROM message_store.messages WHERE "@
}

/// The full text of the historical range query for `n` ranges.
pub open spec fn ranges_query_view(n: int) -> Seq<char> {
    select_prefix() + ranges_clause(n)
}

/// Builds the historical range query: the log's columns, restricted to the
/// OR of one closed interval per supplied range, each interval holding two
/// positional bind parameters.
pub fn ranges_query(ranges: Vec<(i64, i64)>) -> (q: String)
    requires
        2 * ranges@.len() + 2 <= usize::MAX,
    ensures
        q@ == ranges_query_view(ranges@.len() as int),
{
    let mut q = String::from_str(
        "SELECT global_position, position, id, data, metadata, stream_name, type, time FROM message_store.messages WHERE ",
    );
    let n = ranges.len();
    let mut i: usize = 0;
    while i < n
        invariant
            i <= n,
            n == ranges@.len(),
            2 * n + 2 <= usize::MAX,
            q@ == select_prefix() + ranges_clause(i as int),
        decreases n - i,
    {
        if i > 0 {
            q.append(" OR ");
        }
        q.append("(global_position >= $");
        let a = u64_to_string((2 * i + 1) as u64);
        q.append(a.as_str());
        q.append(" AND global_position <= $");
        let b = u64_to_string((2 * i + 2) as u64);
        q.append(b.as_str());
        q.append(")");
        i = i + 1;
    }
    q
}

/// Flattens ranges into the ordered bind parameters of the range query:
/// each range contributes its start, then its end.
pub fn range_params(ranges: &Vec<(i64, i64)>) -> (params: Vec<i64>)
    ensures
        params@.len() == 2 * ranges@.len(),
        forall|i: int|
            0 <= i < ranges@.len() ==> params@[2 * i] == ranges@[i].0 && params@[2 * i + 1]
                == ranges@[i].1,
{
    let mut params: Vec<i64> = Vec::new();
    let n = ranges.len();
    let mut i: usize = 0;
    while i < n
        invariant
            i <= n,
            n == ranges@.len(),
            params@.len() == 2 * i,
            forall|j: int|
                0 <= j < i ==> params@[2 * j] == ranges@[j].0 && params@[2 * j + 1]
                    == ranges@[j].1,
        decreases n - i,
    {
        let (start, end) = ranges[i];
        params.push(start);
        params.push(end);
        i = i + 1;
    }
    params
}

/// The text of the unbounded tail query: rows strictly newer than the
/// cursor, ascending by global position.
pub open spec fn tail_query_view() -> Seq<char> {
    "SELECT global_position, position, id, data, metadata, stream_name, type, time FROM message_store.messages WHERE global_position > $1 ORDER BY global_position"@
}

/// Builds the tail query for the current cursor.
pub fn tail_query() -> (q: String)
    ensures
        q@ == tail_query_view(),
{
    String::from_str(
        "SELECT global_position, position, id, data, metadata, stream_name, type, time FROM message_store.messages WHERE global_position > $1 ORDER BY global_position",
    )
}

/// The text of the reset-detection probe: does the cursor's exact position
/// still exist?
pub open spec fn exists_query_view() -> Seq<char> {
    "SELECT global_position FROM message_store.messages WHERE global_position = $1"@
}

/// Builds the existence-probe query for the current cursor.
pub fn exists_query() -> (q: String)
    ensures
        q@ == exists_query_view(),
{
    String::from_str("SELECT global_position FROM message_store.messages WHERE global_position = $1")
}

/// The predicate the range query expresses of one row: the row's global
/// position falls inside at least one of the ranges.
pub open spec fn in_ranges_spec(ranges: Seq<(i64, i64)>, gp: int) -> bool {
    exists|i: int| 0 <= i < ranges.len() && ranges[i].0 <= gp && gp <= ranges[i].1
}

/// Whether a global position falls inside at least one of the ranges: the
/// row-level meaning of the range query's OR predicate.
pub fn in_ranges(ranges: &Vec<(i64, i64)>, gp: i64) -> (r: bool)
    ensures
        r == in_ranges_spec(ranges@, gp as int),
{
    let n = ranges.len();
    let mut i: usize = 0;
    while i < n
        invariant
            i <= n,
            n == ranges@.len(),
            forall|j: int| 0 <= j < i ==> !(ranges@[j].0 <= gp && gp <= ranges@[j].1),
        decreases n - i,
    {
        let (start, end) = ranges[i];
        if start <= gp && gp <= end {
            return true;
        }
        i = i + 1;
    }
    false
}

} // verus!
