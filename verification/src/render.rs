//! The canonical log record, the stream-name filter, and the fixed-layout
//! colorized block a record is rendered into.

use vstd::prelude::*;
use vstd::string::StrSliceExecFns;
use vstd::string::StringExecFns;
use crate::color::{assign, assign_spec, category_of, category_view, colorize, paint_view, Rgb};
use crate::doc::{doc_view, render_doc, Doc};
use crate::text::{
    contains_sub, contains_substr, i64_to_string, int_to_dec, is_substring_at, push_char,
};

verus! {

/// One record of the log, as decoded from a backend row. Never mutated
/// after creation.
pub struct Message {
    /// Strictly increasing, unique ordering key across the entire log.
    pub global_position: i64,
    /// Position of the record within its own stream.
    pub position: i64,
    /// Opaque record identity.
    pub id: String,
    /// Required structured payload.
    pub data: Doc,
    /// Optional structured payload.
    pub metadata: Option<Doc>,
    /// The partition the record belongs to, `<category>-<identifier>`.
    pub stream_name: String,
    /// The record's logical event type.
    pub event_type: String,
    /// Record creation time, as text.
    pub time: String,
}

/// A message passes when no filter is given, or its stream name contains
/// at least one of the filter substrings.
pub open spec fn passes_filters(filters: Seq<Seq<char>>, stream: Seq<char>) -> bool {
    filters.len() == 0 || exists|i: int|
        0 <= i < filters.len() && contains_substr(stream, filters[i])
}

/// Applies the stream filter to a stream name: case-sensitive substring
/// containment, OR semantics across the filters, everything passing when
/// no filter is given.
pub fn passes(filters: &Vec<String>, stream_name: &str) -> (r: bool)
    ensures
        r == passes_filters(filters.deep_view(), stream_name@),
{
    let n = filters.len();
    if n == 0 {
        return true;
    }
    let mut i: usize = 0;
    while i < n
        invariant
            i <= n,
            n == filters@.len(),
            forall|j: int| 0 <= j < i ==> !contains_substr(stream_name@, filters.deep_view()[j]),
        decreases n - i,
    {
        proof {
            assert(filters.deep_view()[i as int] == filters@[i as int]@);
        }
        if contains_sub(stream_name, filters[i].as_str()) {
            return true;
        }
        i = i + 1;
    }
    false
}

/// The metadata field's text: the rendered document, or the literal
/// `Null` when the metadata is absent.
pub open spec fn metadata_view(metadata: Option<Doc>) -> Seq<char> {
    match metadata {
        Some(d) => doc_view(d),
        None => "Null"@,
    }
}

/// The fixed-layout block a message renders into: a header with the
/// global position, the labeled fields painted with the highlight color,
/// the two payload documents, and a trailing separator.
pub open spec fn render_view(m: Message, highlight: Rgb) -> Seq<char> {
    seq!['\n'] + "- [ Global Position: "@ + int_to_dec(m.global_position as int)
        + " ] --------------------------"@ + seq!['\n'] + "| Stream name | "@ + paint_view(
        m.stream_name@,
        highlight,
    ) + seq!['\n'] + "| Position    | "@ + paint_view(int_to_dec(m.position as int), highlight)
        + seq!['\n'] + "| Type        | "@ + paint_view(m.event_type@, highlight) + seq!['\n']
        + "| Time        | "@ + paint_view(m.time@, highlight) + seq!['\n'] + "| Data        | "@
        + doc_view(m.data) + seq!['\n'] + "| Metadata    | "@ + metadata_view(m.metadata)
        + seq!['\n'] + "----------------------------------------------------"@ + seq!['\n']
}

/// Renders a message into its block, every labeled field painted with the
/// highlight color.
pub fn render(m: &Message, highlight: &Rgb) -> (res: String)
    ensures
        res@ == render_view(*m, *highlight),
{
    let mut out = String::new();
    push_char(&mut out, '\n');
    out.append("- [ Global Position: ");
    let gp = i64_to_string(m.global_position);
    out.append(gp.as_str());
    out.append(" ] --------------------------");
    push_char(&mut out, '\n');
    out.append("| Stream name | ");
    let sn = colorize(m.stream_name.as_str(), highlight);
    out.append(sn.as_str());
    push_char(&mut out, '\n');
    out.append("| Position    | ");
    let pos = i64_to_string(m.position);
    let posc = colorize(pos.as_str(), highlight);
    out.append(posc.as_str());
    push_char(&mut out, '\n');
    out.append("| Type        | ");
    let et = colorize(m.event_type.as_str(), highlight);
    out.append(et.as_str());
    push_char(&mut out, '\n');
    out.append("| Time        | ");
    let tm = colorize(m.time.as_str(), highlight);
    out.append(tm.as_str());
    push_char(&mut out, '\n');
    out.append("| Data        | ");
    let dt = render_doc(&m.data);
    out.append(dt.as_str());
    push_char(&mut out, '\n');
    out.append("| Metadata    | ");
    match &m.metadata {
        Some(d) => {
            let md = render_doc(d);
            out.append(md.as_str());
        },
        None => {
            out.append("Null");
        },
    }
    push_char(&mut out, '\n');
    out.append("----------------------------------------------------");
    push_char(&mut out, '\n');
    proof {
        assert(out@ =~= render_view(*m, *highlight));
    }
    out
}

/// Metadata absence: a message with no metadata renders the literal text
/// `Null` in its metadata field, never an empty string.
pub proof fn lemma_metadata_absent(m: Message, highlight: Rgb)
    requires
        m.metadata is None,
    ensures
        contains_substr(
            render_view(m, highlight),
            "| Metadata    | "@ + "Null"@ + seq!['\n'],
        ),
{
    let v = render_view(m, highlight);
    let needle = "| Metadata    | "@ + "Null"@ + seq!['\n'];
    let pre = seq!['\n'] + "- [ Global Position: "@ + int_to_dec(m.global_position as int)
        + " ] --------------------------"@ + seq!['\n'] + "| Stream name | "@ + paint_view(
        m.stream_name@,
        highlight,
    ) + seq!['\n'] + "| Position    | "@ + paint_view(int_to_dec(m.position as int), highlight)
        + seq!['\n'] + "| Type        | "@ + paint_view(m.event_type@, highlight) + seq!['\n']
        + "| Time        | "@ + paint_view(m.time@, highlight) + seq!['\n'] + "| Data        | "@
        + doc_view(m.data) + seq!['\n'];
    let tail = "----------------------------------------------------"@ + seq!['\n'];
    assert(v =~= pre + needle + tail);
    let p = pre.len() as int;
    assert(v.subrange(p, p + needle.len()) =~= needle);
    assert(is_substring_at(v, needle, p));
}

/// The block a message renders into when highlighted with the color its
/// own stream category determines.
pub open spec fn render_of(m: Message) -> Seq<char> {
    render_view(m, assign_spec(category_view(m.stream_name@)))
}

/// Renders a message with the color assigned to its stream's category.
pub fn render_message(m: &Message) -> (res: String)
    ensures
        res@ == render_of(*m),
{
    let category = category_of(m.stream_name.as_str());
    let highlight = assign(category.as_str());
    render(m, &highlight)
}

} // verus!
