use message_tail::color::{assign, category_of, colorize, make_light, Rgb};
use message_tail::doc::{render_doc, Doc};
use message_tail::engine::{reset_notice, Engine};
use message_tail::query::{
    exists_query, in_ranges, parse_range, range_params, ranges_query, tail_query, RangeError,
};
use message_tail::render::{passes, render, render_message, Message};
use message_tail::text::{contains_sub, i64_to_string};

fn msg(global_position: i64, position: i64, stream_name: &str, event_type: &str) -> Message {
    Message {
        global_position,
        position,
        id: String::from("00000000-0000-0000-0000-000000000000"),
        data: Doc::Obj(vec![(String::from("amount"), Doc::Int(10))]),
        metadata: None,
        stream_name: String::from(stream_name),
        event_type: String::from(event_type),
        time: String::from("2024-01-02 03:04:05"),
    }
}

#[test]
fn range_parsing_accepts_ordered_pair() {
    assert_eq!(parse_range("5-10"), Ok((5, 10)));
    assert_eq!(parse_range("0-0"), Ok((0, 0)));
    assert_eq!(parse_range("007-8"), Ok((7, 8)));
}

#[test]
fn range_parsing_rejects_reversed_order() {
    assert_eq!(parse_range("10-5"), Err(RangeError::InvalidRangeOrder));
}

#[test]
fn range_parsing_rejects_malformed_tokens() {
    assert_eq!(parse_range("abc-10"), Err(RangeError::InvalidRangeFormat));
    assert_eq!(parse_range("5"), Err(RangeError::InvalidRangeFormat));
    assert_eq!(parse_range("5-"), Err(RangeError::InvalidRangeFormat));
    assert_eq!(parse_range("-5"), Err(RangeError::InvalidRangeFormat));
    assert_eq!(parse_range("1-2-3"), Err(RangeError::InvalidRangeFormat));
    assert_eq!(parse_range(""), Err(RangeError::InvalidRangeFormat));
    assert_eq!(parse_range("+5-10"), Err(RangeError::InvalidRangeFormat));
    assert_eq!(
        parse_range("99999999999999999999-5"),
        Err(RangeError::InvalidRangeFormat)
    );
}

#[test]
fn range_parsing_accepts_largest_machine_value() {
    assert_eq!(
        parse_range("0-9223372036854775807"),
        Ok((0, 9223372036854775807))
    );
    assert_eq!(
        parse_range("0-9223372036854775808"),
        Err(RangeError::InvalidRangeFormat)
    );
}

#[test]
fn ranges_query_text_for_two_ranges() {
    let q = ranges_query(vec![(1, 3), (8, 10)]);
    assert_eq!(
        q,
        "SELECT global_position, position, id, data, metadata, stream_name, type, time \
         FROM message_store.messages WHERE (global_position >= $1 AND global_position <= $2) \
         OR (global_position >= $3 AND global_position <= $4)"
    );
}

#[test]
fn ranges_query_text_for_one_range() {
    let q = ranges_query(vec![(5, 10)]);
    assert_eq!(
        q,
        "SELECT global_position, position, id, data, metadata, stream_name, type, time \
         FROM message_store.messages WHERE (global_position >= $1 AND global_position <= $2)"
    );
}

#[test]
fn ranges_query_text_for_no_ranges() {
    let q = ranges_query(vec![]);
    assert_eq!(
        q,
        "SELECT global_position, position, id, data, metadata, stream_name, type, time \
         FROM message_store.messages WHERE "
    );
}

#[test]
fn range_params_flatten_in_order() {
    assert_eq!(range_params(&vec![(1, 3), (8, 10)]), vec![1, 3, 8, 10]);
    assert_eq!(range_params(&vec![]), Vec::<i64>::new());
}

#[test]
fn tail_and_exists_query_texts() {
    assert_eq!(
        tail_query(),
        "SELECT global_position, position, id, data, metadata, stream_name, type, time \
         FROM message_store.messages WHERE global_position > $1 ORDER BY global_position"
    );
    assert_eq!(
        exists_query(),
        "SELECT global_position FROM message_store.messages WHERE global_position = $1"
    );
}

#[test]
fn range_query_or_semantics() {
    let ranges = vec![(1, 3), (8, 10)];
    let mut hits = Vec::new();
    for gp in 1..=10 {
        if in_ranges(&ranges, gp) {
            hits.push(gp);
        }
    }
    assert_eq!(hits, vec![1, 2, 3, 8, 9, 10]);
}

#[test]
fn range_query_tolerates_overlap_and_disorder() {
    let ranges = vec![(4, 6), (1, 5)];
    let mut hits = Vec::new();
    for gp in 1..=10 {
        if in_ranges(&ranges, gp) {
            hits.push(gp);
        }
    }
    assert_eq!(hits, vec![1, 2, 3, 4, 5, 6]);
    assert_eq!(range_params(&ranges), vec![4, 6, 1, 5]);
}

#[test]
fn color_assignment_is_deterministic() {
    let first = assign("account");
    let second = assign("account");
    assert_eq!(first, second);
    let other = assign("order");
    assert_ne!(first, other);
}

#[test]
fn color_channels_are_lightened() {
    assert_eq!(make_light(0), 128);
    assert_eq!(make_light(200), 228);
    assert_eq!(make_light(255), 255);
    let rgb = assign("account");
    assert!(rgb.r >= 128 && rgb.g >= 128 && rgb.b >= 128);
}

#[test]
fn category_extraction() {
    assert_eq!(category_of("account-123"), "account");
    assert_eq!(category_of("a-b-c"), "a");
    assert_eq!(category_of("nodash"), "default");
    assert_eq!(category_of(""), "default");
    assert_eq!(category_of("-leading"), "");
}

#[test]
fn colorize_wraps_in_truecolor_codes() {
    let rgb = Rgb { r: 1, g: 2, b: 3 };
    assert_eq!(colorize("hi", &rgb), "\u{1b}[38;2;1;2;3mhi\u{1b}[0m");
}

#[test]
fn integer_rendering() {
    assert_eq!(i64_to_string(0), "0");
    assert_eq!(i64_to_string(42), "42");
    assert_eq!(i64_to_string(-7), "-7");
    assert_eq!(i64_to_string(i64::MAX), "9223372036854775807");
    assert_eq!(i64_to_string(i64::MIN), "-9223372036854775808");
}

#[test]
fn document_rendering_is_compact_and_colored() {
    assert_eq!(render_doc(&Doc::Null), "null");
    assert_eq!(render_doc(&Doc::Bool(true)), "true");
    assert_eq!(render_doc(&Doc::Bool(false)), "false");
    assert_eq!(render_doc(&Doc::Int(-5)), "-5");
    assert_eq!(
        render_doc(&Doc::Text(String::from("v"))),
        "\u{1b}[1;34m\"v\"\u{1b}[0m"
    );
    assert_eq!(
        render_doc(&Doc::Arr(vec![Doc::Null, Doc::Bool(true), Doc::Int(3)])),
        "[null,true,3]"
    );
    assert_eq!(
        render_doc(&Doc::Obj(vec![(String::from("k"), Doc::Int(1))])),
        "{\u{1b}[32m\"k\"\u{1b}[0m:1}"
    );
    assert_eq!(render_doc(&Doc::Arr(vec![])), "[]");
    assert_eq!(render_doc(&Doc::Obj(vec![])), "{}");
}

#[test]
fn document_rendering_escapes_strings() {
    let d = Doc::Text(String::from("a\"b\\c\nd\te\r"));
    assert_eq!(
        render_doc(&d),
        "\u{1b}[1;34m\"a\\\"b\\\\c\\nd\\te\\r\"\u{1b}[0m"
    );
}

#[test]
fn document_rendering_handles_nesting() {
    let d = Doc::Obj(vec![(
        String::from("outer"),
        Doc::Arr(vec![Doc::Obj(vec![(String::from("inner"), Doc::Null)])]),
    )]);
    assert_eq!(
        render_doc(&d),
        "{\u{1b}[32m\"outer\"\u{1b}[0m:[{\u{1b}[32m\"inner\"\u{1b}[0m:null}]}"
    );
}

#[test]
fn rendered_block_layout_is_exact() {
    let m = msg(7, 2, "account-123", "Deposited");
    let rgb = Rgb { r: 200, g: 150, b: 100 };
    let block = render(&m, &rgb);
    let expected = String::new()
        + "\n- [ Global Position: 7 ] --------------------------\n"
        + "| Stream name | \u{1b}[38;2;200;150;100maccount-123\u{1b}[0m\n"
        + "| Position    | \u{1b}[38;2;200;150;100m2\u{1b}[0m\n"
        + "| Type        | \u{1b}[38;2;200;150;100mDeposited\u{1b}[0m\n"
        + "| Time        | \u{1b}[38;2;200;150;100m2024-01-02 03:04:05\u{1b}[0m\n"
        + "| Data        | {\u{1b}[32m\"amount\"\u{1b}[0m:10}\n"
        + "| Metadata    | Null\n"
        + "----------------------------------------------------\n";
    assert_eq!(block, expected);
}

#[test]
fn metadata_absence_renders_literal_null() {
    let m = msg(1, 1, "account-1", "Opened");
    let block = render_message(&m);
    assert!(block.contains("| Metadata    | Null\n"));
    let mut with_meta = msg(2, 1, "account-1", "Opened");
    with_meta.metadata = Some(Doc::Null);
    let block2 = render_message(&with_meta);
    assert!(block2.contains("| Metadata    | null\n"));
    assert!(!block2.contains("| Metadata    | Null\n"));
}

#[test]
fn stream_filter_has_or_semantics() {
    let no_filter: Vec<String> = vec![];
    assert!(passes(&no_filter, "anything-1"));
    let filters = vec![String::from("account"), String::from("order")];
    assert!(passes(&filters, "account-1"));
    assert!(passes(&filters, "order-9"));
    assert!(!passes(&filters, "shipment-2"));
    assert!(contains_sub("abcdef", "cde"));
    assert!(!contains_sub("abcdef", "ce"));
    assert!(contains_sub("abc", ""));
    assert!(!contains_sub("ab", "abc"));
}

#[test]
fn filter_is_case_sensitive() {
    let filters = vec![String::from("Account")];
    assert!(!passes(&filters, "account-1"));
    assert!(passes(&filters, "Account-1"));
}

#[test]
fn filter_transparent_cursor_advance() {
    let rows = vec![
        msg(1, 1, "alpha-1", "E"),
        msg(2, 2, "alpha-1", "E"),
        msg(3, 1, "Beta-7", "E"),
        msg(4, 3, "alpha-1", "E"),
        msg(5, 4, "alpha-1", "E"),
    ];
    let mut engine = Engine::new(vec![String::from("B")]);
    let out = engine.process_batch(rows);
    assert_eq!(engine.cursor, 5);
    assert_eq!(out.len(), 1);
    assert!(out[0].contains("- [ Global Position: 3 ]"));
}

#[test]
fn monotonic_tail_across_polls() {
    let mut engine = Engine::new(vec![]);
    let first = engine.process_batch(vec![msg(1, 1, "a-1", "E"), msg(2, 2, "a-1", "E")]);
    assert_eq!(first.len(), 2);
    let cursor_after_first = engine.cursor;
    assert_eq!(cursor_after_first, 2);
    let second = engine.process_batch(vec![msg(3, 3, "a-1", "E")]);
    assert_eq!(second.len(), 1);
    assert!(second[0].contains("- [ Global Position: 3 ]"));
    assert!(!second
        .iter()
        .any(|b| b.contains("- [ Global Position: 1 ]") || b.contains("- [ Global Position: 2 ]")));
    assert_eq!(engine.cursor, 3);
}

#[test]
fn empty_batch_keeps_cursor() {
    let mut engine = Engine::new(vec![]);
    engine.process_batch(vec![msg(4, 1, "a-1", "E")]);
    let out = engine.process_batch(vec![]);
    assert_eq!(engine.cursor, 4);
    assert!(out.is_empty());
}

#[test]
fn reset_round_trip() {
    let mut engine = Engine::new(vec![]);
    let mut notices = 0;

    // First poll: the log holds positions 1..=3.
    if engine.check_reset(true) {
        notices += 1;
    }
    let first = engine.process_batch(vec![
        msg(1, 1, "a-1", "E"),
        msg(2, 2, "a-1", "E"),
        msg(3, 3, "a-1", "E"),
    ]);
    assert_eq!(first.len(), 3);
    assert_eq!(engine.cursor, 3);

    // Second poll: the log was truncated; position 3 is gone.
    if engine.check_reset(false) {
        notices += 1;
    }
    assert_eq!(engine.cursor, 0);
    let second = engine.process_batch(vec![msg(1, 1, "a-1", "E"), msg(2, 2, "a-1", "E")]);
    assert_eq!(second.len(), 2);
    assert!(second[0].contains("- [ Global Position: 1 ]"));
    assert_eq!(engine.cursor, 2);

    // Third poll: nothing changed, no further notice.
    if engine.check_reset(true) {
        notices += 1;
    }
    assert_eq!(notices, 1);
}

#[test]
fn fresh_engine_never_reports_reset() {
    let mut engine = Engine::new(vec![]);
    assert!(!engine.check_reset(false));
    assert!(!engine.check_reset(true));
    assert_eq!(engine.cursor, 0);
}

#[test]
fn reset_notice_text() {
    assert_eq!(reset_notice(), "\u{1b}[2JDatabase was reset, starting over\n");
}
