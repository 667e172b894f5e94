//! The structured payload of a log record: an opaque document value of
//! arbitrary nesting, and its compact, syntax-colored one-line rendering.

use vstd::prelude::*;
use vstd::string::StringExecFns;
use crate::text::{int_to_dec, push_char, u64_to_string, i64_to_string};

verus! {

/// A structured document: a tagged union of null, booleans, integers,
/// text, arrays and objects, nested arbitrarily.
pub enum Doc {
    Null,
    Bool(bool),
    Int(i64),
    Text(String),
    Arr(Vec<Doc>),
    Obj(Vec<(String, Doc)>),
}

/// The escape-code prefix that colors an object key.
pub open spec fn key_code() -> Seq<char> {
    "\u{1b}[32m"@
}

/// The escape-code prefix that colors a string value.
pub open spec fn string_code() -> Seq<char> {
    "\u{1b}[1;34m"@
}

/// The escape code that returns the terminal to its default style.
pub open spec fn reset_code() -> Seq<char> {
    "\u{1b}[0m"@
}

/// How one character appears inside a quoted string.
pub open spec fn escaped_char(c: char) -> Seq<char> {
    if c == '"' {
        seq!['\\', '"']
    } else if c == '\\' {
        seq!['\\', '\\']
    } else if c == '\n' {
        seq!['\\', 'n']
    } else if c == '\r' {
        seq!['\\', 'r']
    } else if c == '\t' {
        seq!['\\', 't']
    } else {
        seq![c]
    }
}

/// The body of a quoted string: each character escaped.
pub open spec fn escaped(s: Seq<char>) -> Seq<char>
    decreases s.len(),
{
    if s.len() == 0 {
        Seq::empty()
    } else {
        escaped(s.drop_last()) + escaped_char(s.last())
    }
}

/// A quoted, escaped string.
pub open spec fn quoted(s: Seq<char>) -> Seq<char> {
    seq!['"'] + escaped(s) + seq!['"']
}

/// The compact rendering of a document, string values colored.
pub open spec fn doc_view(d: Doc) -> Seq<char>
    decreases d,
{
    match d {
        Doc::Null => "null"@,
        Doc::Bool(b) => if b {
            "true"@
        } else {
            "false"@
        },
        Doc::Int(n) => int_to_dec(n as int),
        Doc::Text(s) => string_code() + quoted(s@) + reset_code(),
        Doc::Arr(items) => seq!['['] + items_view(items@) + seq![']'],
        Doc::Obj(entries) => seq!['{'] + entries_view(entries@) + seq!['}'],
    }
}

/// The comma-separated renderings of an array's items.
pub open spec fn items_view(items: Seq<Doc>) -> Seq<char>
    decreases items,
{
    if items.len() == 0 {
        Seq::empty()
    } else if items.len() == 1 {
        doc_view(items[0])
    } else {
        items_view(items.drop_last()) + seq![','] + doc_view(items.last())
    }
}

/// The rendering of one object entry: the colored, quoted key, then the
/// value.
pub open spec fn entry_view(e: (String, Doc)) -> Seq<char>
    decreases e,
{
    key_code() + quoted(e.0@) + reset_code() + seq![':'] + doc_view(e.1)
}

/// The comma-separated renderings of an object's entries.
pub open spec fn entries_view(entries: Seq<(String, Doc)>) -> Seq<char>
    decreases entries,
{
    if entries.len() == 0 {
        Seq::empty()
    } else if entries.len() == 1 {
        entry_view(entries[0])
    } else {
        entries_view(entries.drop_last()) + seq![','] + entry_view(entries.last())
    }
}

/// Appends the quoted, escaped form of `s` to `out`.
fn push_quoted(out: &mut String, s: &str)
    ensures
        final(out)@ == old(out)@ + quoted(s@),
{
    push_char(out, '"');
    let n = s.unicode_len();
    let mut i: usize = 0;
    while i < n
        invariant
            i <= n,
            n == s@.len(),
            out@ == old(out)@ + seq!['"'] + escaped(s@.take(i as int)),
        decreases n - i,
    {
        let c = s.get_char(i);
        proof {
            assert(s@.take(i + 1 as int).drop_last() =~= s@.take(i as int));
            assert(s@.take(i + 1 as int).last() == s@[i as int]);
        }
        if c == '"' {
            push_char(out, '\\');
            push_char(out, '"');
        } else if c == '\\' {
            push_char(out, '\\');
            push_char(out, '\\');
        } else if c == '\n' {
            push_char(out, '\\');
            push_char(out, 'n');
        } else if c == '\r' {
            push_char(out, '\\');
            push_char(out, 'r');
        } else if c == '\t' {
            push_char(out, '\\');
            push_char(out, 't');
        } else {
            push_char(out, c);
        }
        i = i + 1;
    }
    proof {
        assert(s@.take(n as int) =~= s@);
    }
    push_char(out, '"');
}

/// Renders a document compactly onto the end of `out`, object keys and
/// string values colored.
#[verifier::loop_isolation(false)]
pub fn render_doc_onto(d: &Doc, out: &mut String)
    ensures
        final(out)@ == old(out)@ + doc_view(*d),
    decreases *d,
{
    match d {
        Doc::Null => {
            out.append("null");
        },
        Doc::Bool(b) => {
            if *b {
                out.append("true");
            } else {
                out.append("false");
            }
        },
        Doc::Int(n) => {
            let t = i64_to_string(*n);
            out.append(t.as_str());
        },
        Doc::Text(s) => {
            out.append("\u{1b}[1;34m");
            push_quoted(out, s.as_str());
            out.append("\u{1b}[0m");
        },
        Doc::Arr(items) => {
            push_char(out, '[');
            let n = items.len();
            let mut i: usize = 0;
            while i < n
                invariant
                    i <= n,
                    n == items@.len(),
                    out@ == old(out)@ + seq!['['] + items_view(items@.take(i as int)),
                decreases n - i,
            {
                if i > 0 {
                    push_char(out, ',');
                }
                proof {
                    assert(items@.take(i + 1 as int).drop_last() =~= items@.take(i as int));
                    assert(items@.take(i + 1 as int).last() == items@[i as int]);
                    assert(decreases_to!(*d => d->Arr_0));
                    assert(decreases_to!(items@ => items@[i as int]));
                }
                render_doc_onto(&items[i], out);
                i = i + 1;
            }
            proof {
                assert(items@.take(n as int) =~= items@);
            }
            push_char(out, ']');
        },
        Doc::Obj(entries) => {
            push_char(out, '{');
            let n = entries.len();
            let mut i: usize = 0;
            while i < n
                invariant
                    i <= n,
                    n == entries@.len(),
                    out@ == old(out)@ + seq!['{'] + entries_view(entries@.take(i as int)),
                decreases n - i,
            {
                if i > 0 {
                    push_char(out, ',');
                }
                proof {
                    assert(entries@.take(i + 1 as int).drop_last() =~= entries@.take(i as int));
                    assert(entries@.take(i + 1 as int).last() == entries@[i as int]);
                    assert(decreases_to!(*d => d->Obj_0));
                    assert(decreases_to!(entries@ => entries@[i as int]));
                }
                let ghost pre = out@;
                out.append("\u{1b}[32m");
                push_quoted(out, entries[i].0.as_str());
                out.append("\u{1b}[0m");
                push_char(out, ':');
                render_doc_onto(&entries[i].1, out);
                proof {
                    assert(out@ =~= pre + entry_view(entries@[i as int]));
                    assert(out@ =~= old(out)@ + seq!['{'] + entries_view(
                        entries@.take(i + 1 as int),
                    ));
                }
                i = i + 1;
            }
            proof {
                assert(entries@.take(n as int) =~= entries@);
            }
            push_char(out, '}');
        },
    }
}

/// The compact, syntax-colored rendering of a document.
pub fn render_doc(d: &Doc) -> (res: String)
    ensures
        res@ == doc_view(*d),
{
    let mut out = String::new();
    render_doc_onto(d, &mut out);
    out
}

} // verus!
