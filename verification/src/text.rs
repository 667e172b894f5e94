//! Text utilities shared by the query builder and the renderer: decimal
//! rendering of integers, digit parsing, and substring search.

use vstd::prelude::*;
use vstd::string::StrSliceExecFns;
use vstd::string::StringExecFns;

verus! {

/// The decimal digit character for a value in 0..10.
pub open spec fn dec_digit(d: int) -> char {
    ((d + 48) as u8) as char
}

/// Decimal digits of a non-negative integer, empty for zero.
pub open spec fn dec_of(n: int) -> Seq<char>
    decreases n,
{
    if n <= 0 {
        Seq::empty()
    } else {
        dec_of(n / 10) + seq![dec_digit(n % 10)]
    }
}

/// Decimal rendering of an integer, with a leading `-` when negative.
pub open spec fn int_to_dec(n: int) -> Seq<char> {
    if n == 0 {
        seq!['0']
    } else if n < 0 {
        seq!['-'] + dec_of(-n)
    } else {
        dec_of(n)
    }
}

/// Relies on String::push: appends the given character to the end of the string.
#[verifier::external_body]
pub fn push_char(s: &mut String, c: char)
    ensures
        final(s)@ == old(s)@ + seq![c],
{
    s.push(c);
}

/// Decimal rendering of an unsigned integer.
pub fn u64_to_string(u: u64) -> (res: String)
    ensures
        res@ == int_to_dec(u as int),
{
    if u == 0 {
        proof {
            reveal_strlit("0");
            assert("0"@ =~= seq!['0']);
        }
        return String::from_str("0");
    }
    let ghost orig = u as int;
    let mut digits: Vec<char> = Vec::new();
    let mut v: u64 = u;
    while v > 0
        invariant
            0 <= v,
            dec_of(orig) == dec_of(v as int) + digits@.reverse(),
        decreases v,
    {
        let d: u64 = v % 10;
        let c: char = ((d as u8) + 48) as char;
        proof {
            assert(c == dec_digit(v as int % 10));
            assert(digits@.push(c).reverse() =~= seq![c] + digits@.reverse());
        }
        digits.push(c);
        v = v / 10;
    }
    proof {
        assert(dec_of(orig) == digits@.reverse());
    }
    let mut res = String::new();
    let n = digits.len();
    let mut i: usize = 0;
    while i < n
        invariant
            i <= n,
            n == digits@.len(),
            res@ == digits@.reverse().take(i as int),
        decreases n - i,
    {
        let c = digits[n - 1 - i];
        proof {
            assert(digits@.reverse()[i as int] == digits@[n - 1 - i as int]);
            assert(digits@.reverse().take(i + 1 as int) =~= digits@.reverse().take(i as int)
                + seq![digits@.reverse()[i as int]]);
        }
        push_char(&mut res, c);
        i = i + 1;
    }
    proof {
        assert(digits@.reverse().take(n as int) =~= digits@.reverse());
    }
    res
}

/// Decimal rendering of a signed integer.
pub fn i64_to_string(n: i64) -> (res: String)
    ensures
        res@ == int_to_dec(n as int),
{
    if n >= 0 {
        u64_to_string(n as u64)
    } else {
        let mag: u64 = ((-(n + 1)) as u64) + 1;
        proof {
            assert(mag as int == -(n as int));
        }
        let tail = u64_to_string(mag);
        let mut res = String::from_str("-");
        res.append(tail.as_str());
        proof {
            assert("-"@ =~= seq!['-']) by {
                reveal_strlit("-");
            }
        }
        res
    }
}

/// The needle occurs in the haystack starting at index `i`.
pub open spec fn is_substring_at(hay: Seq<char>, needle: Seq<char>, i: int) -> bool {
    0 <= i && i + needle.len() <= hay.len() && hay.subrange(i, i + needle.len()) == needle
}

/// The needle occurs somewhere in the haystack.
pub open spec fn contains_substr(hay: Seq<char>, needle: Seq<char>) -> bool {
    exists|i: int| is_substring_at(hay, needle, i)
}

/// Case-sensitive substring search.
pub fn contains_sub(hay: &str, needle: &str) -> (r: bool)
    ensures
        r == contains_substr(hay@, needle@),
{
    let hn = hay.unicode_len();
    let nn = needle.unicode_len();
    if nn > hn {
        proof {
            assert(forall|i: int| !is_substring_at(hay@, needle@, i));
        }
        return false;
    }
    if nn == 0 {
        proof {
            assert(hay@.subrange(0, 0) =~= needle@);
            assert(is_substring_at(hay@, needle@, 0));
        }
        return true;
    }
    let mut i: usize = 0;
    while i <= hn - nn
        invariant
            0 < nn <= hn,
            hn == hay@.len(),
            nn == needle@.len(),
            i <= hn - nn + 1,
            forall|k: int| 0 <= k < i ==> !is_substring_at(hay@, needle@, k),
        decreases hn - nn + 1 - i,
    {
        let mut j: usize = 0;
        let mut mismatch = false;
        while j < nn
            invariant
                nn <= hn,
                hn == hay@.len(),
                nn == needle@.len(),
                i + nn <= hn,
                j <= nn,
                !mismatch ==> forall|l: int| 0 <= l < j ==> hay@[i + l] == needle@[l],
                mismatch ==> !is_substring_at(hay@, needle@, i as int),
            decreases nn - j,
        {
            if mismatch {
                j = nn;
            } else {
                let hc = hay.get_char(i + j);
                let nc = needle.get_char(j);
                if hc != nc {
                    proof {
                        assert(hay@.subrange(i as int, i + nn as int)[j as int] == hay@[i + j]);
                    }
                    mismatch = true;
                }
                j = j + 1;
            }
        }
        if !mismatch {
            proof {
                assert(hay@.subrange(i as int, i + nn as int) =~= needle@);
                assert(is_substring_at(hay@, needle@, i as int));
            }
            return true;
        }
        i = i + 1;
    }
    proof {
        assert(forall|k: int| is_substring_at(hay@, needle@, k) ==> 0 <= k <= hn - nn);
    }
    false
}

/// Index of the first `-` in the sequence; the length when none occurs.
pub open spec fn first_dash_index(s: Seq<char>) -> int
    decreases s.len(),
{
    if s.len() == 0 {
        0
    } else if s[0] == '-' {
        0
    } else {
        1 + first_dash_index(s.drop_first())
    }
}

/// How many `-` characters the sequence holds.
pub open spec fn dash_count(s: Seq<char>) -> int
    decreases s.len(),
{
    if s.len() == 0 {
        0
    } else {
        dash_count(s.drop_last()) + if s.last() == '-' {
            1int
        } else {
            0int
        }
    }
}

/// The first-dash index is where the leading dash-free prefix ends.
pub proof fn lemma_first_dash_index(s: Seq<char>, k: int)
    requires
        0 <= k <= s.len(),
        forall|j: int| 0 <= j < k ==> s[j] != '-',
        k < s.len() ==> s[k] == '-',
    ensures
        first_dash_index(s) == k,
    decreases s.len(),
{
    if s.len() == 0 {
    } else if k == 0 {
    } else {
        lemma_first_dash_index(s.drop_first(), k - 1);
    }
}

} // verus!
