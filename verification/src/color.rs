//! Deterministic mapping from a stream category to a terminal-legible color.
//!
//! The same category string always yields the same RGB triple, within a
//! process and across runs: the color is a pure function of the characters.
//! Channels are lightened so colorized text stays readable on dark
//! terminal backgrounds.

use vstd::prelude::*;
use vstd::string::StrSliceExecFns;
use vstd::string::StringExecFns;

verus! {

/// An RGB color, one byte per channel.
#[derive(Clone, Copy, Debug, PartialEq, Eq, Structural)]
pub struct Rgb {
    pub r: u8,
    pub g: u8,
    pub b: u8,
}

/// One step of the rolling hash over the category's characters.
pub open spec fn hash_step(h: int, c: char) -> int {
    (h * 131 + c as int) % 0x1000000
}

/// Rolling hash of a character sequence into 24 bits.
pub open spec fn hash_of(s: Seq<char>) -> int
    decreases s.len(),
{
    if s.len() == 0 {
        0
    } else {
        hash_step(hash_of(s.drop_last()), s.last())
    }
}

/// Lightening of one channel: halve, then shift toward white.
pub open spec fn lightened(c: int) -> int {
    c / 2 + 128
}

/// The color assigned to a category: the hash split into three channels,
/// each lightened.
pub open spec fn assign_spec(s: Seq<char>) -> Rgb {
    let h = hash_of(s);
    Rgb {
        r: lightened(h / 0x10000) as u8,
        g: lightened((h / 0x100) % 0x100) as u8,
        b: lightened(h % 0x100) as u8,
    }
}

proof fn lemma_hash_bounds(s: Seq<char>)
    ensures
        0 <= hash_of(s) < 0x1000000,
    decreases s.len(),
{
    if s.len() == 0 {
    } else {
        lemma_hash_bounds(s.drop_last());
    }
}

/// Halving a byte and shifting toward white stays within a byte.
pub fn make_light(c: u8) -> (r: u8)
    ensures
        r as int == lightened(c as int),
{
    c / 2 + 128
}

/// Deterministic color for a category string.
pub fn assign(category: &str) -> (rgb: Rgb)
    ensures
        rgb == assign_spec(category@),
{
    let n = category.unicode_len();
    let mut h: u64 = 0;
    let mut i: usize = 0;
    while i < n
        invariant
            i <= n,
            n == category@.len(),
            h == hash_of(category@.take(i as int)),
            0 <= h < 0x1000000,
        decreases n - i,
    {
        let c = category.get_char(i);
        proof {
            assert(category@.take(i + 1 as int).drop_last() =~= category@.take(i as int));
            assert(category@.take(i + 1 as int).last() == category@[i as int]);
        }
        h = (h * 131 + (c as u64)) % 0x1000000;
        i = i + 1;
    }
    proof {
        assert(category@.take(n as int) =~= category@);
        lemma_hash_bounds(category@);
    }
    let r0: u8 = (h / 0x10000) as u8;
    let g0: u8 = ((h / 0x100) % 0x100) as u8;
    let b0: u8 = (h % 0x100) as u8;
    Rgb { r: make_light(r0), g: make_light(g0), b: make_light(b0) }
}

/// The category of a stream name: the text before the first `-`, or the
/// fallback `default` when the name is empty or has no `-`.
pub open spec fn category_view(s: Seq<char>) -> Seq<char> {
    if s.len() == 0 || (forall|j: int| 0 <= j < s.len() ==> s[j] != '-') {
        "default"@
    } else {
        s.take(crate::text::first_dash_index(s))
    }
}

/// Category of a stream name, for color assignment.
pub fn category_of(stream_name: &str) -> (res: String)
    ensures
        res@ == category_view(stream_name@),
{
    let n = stream_name.unicode_len();
    let mut i: usize = 0;
    while i < n
        invariant
            i <= n,
            n == stream_name@.len(),
            forall|j: int| 0 <= j < i ==> stream_name@[j] != '-',
        decreases n - i,
    {
        let c = stream_name.get_char(i);
        if c == '-' {
            proof {
                crate::text::lemma_first_dash_index(stream_name@, i as int);
            }
            let prefix = stream_name.substring_char(0, i);
            proof {
                assert(stream_name@.subrange(0, i as int) =~= stream_name@.take(i as int));
            }
            return String::from_str(prefix);
        }
        i = i + 1;
    }
    String::from_str("default")
}

/// Text wrapped in the truecolor escape codes that paint it with `rgb`.
pub open spec fn paint_view(s: Seq<char>, rgb: Rgb) -> Seq<char> {
    "\u{1b}[38;2;"@ + crate::text::int_to_dec(rgb.r as int) + seq![';']
        + crate::text::int_to_dec(rgb.g as int) + seq![';'] + crate::text::int_to_dec(
        rgb.b as int,
    ) + seq!['m'] + s + "\u{1b}[0m"@
}

/// Wraps text in the escape codes that paint it with the given color.
pub fn colorize(string: &str, rgb: &Rgb) -> (res: String)
    ensures
        res@ == paint_view(string@, *rgb),
{
    let mut out = String::from_str("\u{1b}[38;2;");
    let r = crate::text::u64_to_string(rgb.r as u64);
    out.append(r.as_str());
    crate::text::push_char(&mut out, ';');
    let g = crate::text::u64_to_string(rgb.g as u64);
    out.append(g.as_str());
    crate::text::push_char(&mut out, ';');
    let b = crate::text::u64_to_string(rgb.b as u64);
    out.append(b.as_str());
    crate::text::push_char(&mut out, 'm');
    out.append(string);
    out.append("\u{1b}[0m");
    proof {
        assert(out@ =~= paint_view(string@, *rgb));
    }
    out
}

/// The same category always yields the same color: the assignment is a
/// pure function of the category's characters, with no hidden state.
pub proof fn lemma_assign_deterministic(a: Seq<char>, b: Seq<char>)
    requires
        a == b,
    ensures
        assign_spec(a) == assign_spec(b),
{
}

} // verus!
