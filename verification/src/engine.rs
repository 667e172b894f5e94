//! The tailing cursor engine: tracks the highest global position already
//! rendered, detects the log being reset, and turns each fetched batch
//! into rendered blocks while advancing the cursor past every row, also
//! the rows the filter drops.
//!
//! The engine makes the decisions only; issuing queries and writing to
//! the terminal are the caller's, which hands each probe result and each
//! fetched batch in and takes the rendered text back.

use vstd::prelude::*;
use vstd::string::StringExecFns;
use crate::render::{passes, passes_filters, render_message, render_of, Message};

verus! {

/// The cursor/tail engine: the resumable read position and the stream
/// filter it renders through.
pub struct Engine {
    /// Highest global position already processed; zero when nothing was.
    pub cursor: i64,
    /// The stream-name filter substrings; empty passes everything.
    pub filters: Vec<String>,
}

/// A healthy engine: the cursor never falls below zero, zero never being
/// a valid global position.
pub open spec fn engine_wf(e: Engine) -> bool {
    e.cursor >= 0
}

/// What the backend promises of a tail-query batch for a cursor: every
/// row strictly newer than the cursor, in strictly ascending order.
pub open spec fn batch_wf(cursor: int, rows: Seq<Message>) -> bool {
    &&& forall|i: int| 0 <= i < rows.len() ==> rows[i].global_position > cursor
    &&& forall|i: int, j: int|
        0 <= i < j < rows.len() ==> rows[i].global_position < rows[j].global_position
}

/// The cursor after a batch was processed: unchanged by an empty batch,
/// else the last row's global position.
pub open spec fn cursor_after(cursor: int, rows: Seq<Message>) -> int {
    if rows.len() == 0 {
        cursor
    } else {
        rows.last().global_position as int
    }
}

/// The rows of a batch that pass the filter, in order.
pub open spec fn passing(filters: Seq<Seq<char>>, rows: Seq<Message>) -> Seq<Message>
    decreases rows.len(),
{
    if rows.len() == 0 {
        Seq::empty()
    } else {
        passing(filters, rows.drop_last()) + if passes_filters(
            filters,
            rows.last().stream_name@,
        ) {
            seq![rows.last()]
        } else {
            Seq::empty()
        }
    }
}

/// The blocks a batch renders into: one per passing row, in order.
pub open spec fn rendered_of(filters: Seq<Seq<char>>, rows: Seq<Message>) -> Seq<Seq<char>>
    decreases rows.len(),
{
    if rows.len() == 0 {
        Seq::empty()
    } else {
        rendered_of(filters, rows.drop_last()) + if passes_filters(
            filters,
            rows.last().stream_name@,
        ) {
            seq![render_of(rows.last())]
        } else {
            Seq::empty()
        }
    }
}

impl Engine {
    /// A fresh engine: nothing read yet, so the cursor starts at zero.
    pub fn new(filters: Vec<String>) -> (e: Engine)
        ensures
            engine_wf(e),
            e.cursor == 0,
            e.filters == filters,
    {
        Engine { cursor: 0, filters }
    }

    /// Decides whether the log was reset, from the probe for the cursor's
    /// exact position: a positive cursor whose position has vanished means
    /// the log was truncated and reseeded, and the engine starts over from
    /// zero. The caller emits the reset notice exactly when this returns
    /// true.
    pub fn check_reset(&mut self, position_exists: bool) -> (reset: bool)
        requires
            engine_wf(*old(self)),
        ensures
            engine_wf(*final(self)),
            reset == (old(self).cursor > 0 && !position_exists),
            final(self).cursor == if reset {
                0i64
            } else {
                old(self).cursor
            },
            final(self).filters == old(self).filters,
    {
        if self.cursor > 0 && !position_exists {
            self.cursor = 0;
            true
        } else {
            false
        }
    }

    /// Processes one fetched batch: renders every row that passes the
    /// filter, and advances the cursor to each row's global position
    /// whether or not the filter dropped it, so a filtered stream never
    /// causes reprocessing of already-seen rows.
    pub fn process_batch(&mut self, rows: Vec<Message>) -> (out: Vec<String>)
        requires
            engine_wf(*old(self)),
            batch_wf(old(self).cursor as int, rows@),
        ensures
            engine_wf(*final(self)),
            final(self).cursor as int == cursor_after(old(self).cursor as int, rows@),
            final(self).cursor >= old(self).cursor,
            final(self).filters == old(self).filters,
            out.deep_view() == rendered_of(old(self).filters.deep_view(), rows@),
    {
        let mut out: Vec<String> = Vec::new();
        let n = rows.len();
        let mut i: usize = 0;
        while i < n
            invariant
                i <= n,
                n == rows@.len(),
                engine_wf(*old(self)),
                batch_wf(old(self).cursor as int, rows@),
                self.filters == old(self).filters,
                self.cursor as int == cursor_after(old(self).cursor as int, rows@.take(i as int)),
                self.cursor >= old(self).cursor,
                out.deep_view() == rendered_of(old(self).filters.deep_view(), rows@.take(i as int)),
            decreases n - i,
        {
            proof {
                assert(rows@.take(i + 1 as int).drop_last() =~= rows@.take(i as int));
                assert(rows@.take(i + 1 as int).last() == rows@[i as int]);
            }
            let row = &rows[i];
            if passes(&self.filters, row.stream_name.as_str()) {
                let block = render_message(row);
                out.push(block);
            }
            proof {
                assert(out.deep_view() =~= rendered_of(
                    old(self).filters.deep_view(),
                    rows@.take(i + 1 as int),
                ));
            }
            self.cursor = row.global_position;
            i = i + 1;
        }
        proof {
            assert(rows@.take(n as int) =~= rows@);
        }
        out
    }
}

/// The full reset notice the caller writes when the engine detects a
/// reset: a screen clear, then the message on a line of its own.
pub open spec fn reset_notice_view() -> Seq<char> {
    "\u{1b}[2J"@ + "Database was reset, starting over"@ + seq!['\n']
}

/// The text emitted on a reset, distinct from normal output: it clears
/// the screen and announces the restart.
pub fn reset_notice() -> (res: String)
    ensures
        res@ == reset_notice_view(),
{
    let mut out = String::from_str("\u{1b}[2J");
    out.append("Database was reset, starting over");
    crate::text::push_char(&mut out, '\n');
    out
}

/// Every row that passes the filter came from the batch.
pub proof fn lemma_passing_subset(filters: Seq<Seq<char>>, rows: Seq<Message>)
    ensures
        forall|i: int|
            0 <= i < passing(filters, rows).len() ==> rows.contains(passing(filters, rows)[i]),
    decreases rows.len(),
{
    if rows.len() > 0 {
        lemma_passing_subset(filters, rows.drop_last());
        assert forall|i: int| 0 <= i < passing(filters, rows).len() implies rows.contains(
            passing(filters, rows)[i],
        ) by {
            let p = passing(filters, rows);
            let q = passing(filters, rows.drop_last());
            if i < q.len() {
                assert(rows.drop_last().contains(q[i]));
                let j = choose|j: int| 0 <= j < rows.drop_last().len() && rows.drop_last()[j] == q[i];
                assert(rows[j] == q[i]);
            } else {
                assert(p[i] == rows.last());
                assert(rows[rows.len() - 1] == rows.last());
            }
        }
    }
}

/// Rendered blocks correspond one to one, in order, to the rows that
/// pass the filter.
pub proof fn lemma_rendered_passing(filters: Seq<Seq<char>>, rows: Seq<Message>)
    ensures
        rendered_of(filters, rows).len() == passing(filters, rows).len(),
        forall|i: int|
            0 <= i < passing(filters, rows).len() ==> rendered_of(filters, rows)[i] == render_of(
                passing(filters, rows)[i],
            ),
    decreases rows.len(),
{
    if rows.len() > 0 {
        lemma_rendered_passing(filters, rows.drop_last());
    }
}

/// Filter idempotence: whatever the filter, no row of a well-formed batch
/// that passes it sits at or below the cursor, so a message already seen
/// is never rendered again.
pub proof fn lemma_no_rerender(filters: Seq<Seq<char>>, cursor: int, rows: Seq<Message>)
    requires
        batch_wf(cursor, rows),
    ensures
        forall|i: int|
            0 <= i < passing(filters, rows).len() ==> passing(filters, rows)[i].global_position
                > cursor,
{
    lemma_passing_subset(filters, rows);
    assert forall|i: int| 0 <= i < passing(filters, rows).len() implies passing(
        filters,
        rows,
    )[i].global_position > cursor by {
        let m = passing(filters, rows)[i];
        assert(rows.contains(m));
        let j = choose|j: int| 0 <= j < rows.len() && rows[j] == m;
        assert(rows[j].global_position > cursor);
    }
}

/// Monotonic tail: across two consecutive polls, the cursor never moves
/// backward, and every message rendered in the second poll lies strictly
/// above the cursor observed at the end of the first.
pub proof fn lemma_monotonic_tail(
    filters: Seq<Seq<char>>,
    cursor0: int,
    rows1: Seq<Message>,
    rows2: Seq<Message>,
)
    requires
        batch_wf(cursor0, rows1),
        batch_wf(cursor_after(cursor0, rows1), rows2),
    ensures
        cursor_after(cursor0, rows1) >= cursor0,
        forall|i: int|
            0 <= i < passing(filters, rows2).len() ==> passing(filters, rows2)[i].global_position
                > cursor_after(cursor0, rows1),
{
    if rows1.len() > 0 {
        assert(rows1.last() == rows1[rows1.len() - 1]);
    }
    lemma_no_rerender(filters, cursor_after(cursor0, rows1), rows2);
}

} // verus!
