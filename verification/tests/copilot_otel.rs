//! Reading spans from a trace database in memory.
use git_ai::copilot_otel::{
    assemble_batch, build_span_event_json, event_entry_json, extract_otel_event_ids,
    extract_otel_event_timestamp, group_attributes, group_events, read_attributes_for_spans,
    read_events_for_spans, read_otel_spans_incremental, read_spans_after, AttributeRow,
    AttributesRead, EventRow, EventsRead, QueryFailure, QueryStage, SpanRead, SpanReply, SpanRequest, SpanRow, TranscriptBatch,
};
use git_ai::json::{parse_json, JsonNumber, JsonValue};
use git_ai::step::Step;
use git_ai::text_map::TextMap;
use git_ai::transcript::{TimestampWatermark, TranscriptError, Wait, Watermark};
use std::path::PathBuf;

fn create_test_otel_db() -> rusqlite::Connection {
    let conn = rusqlite::Connection::open_in_memory().unwrap();
    conn.execute_batch(
        "CREATE TABLE spans (
            span_id TEXT PRIMARY KEY, trace_id TEXT NOT NULL, parent_span_id TEXT,
            name TEXT NOT NULL, start_time_ms INTEGER NOT NULL, end_time_ms INTEGER NOT NULL,
            status_code INTEGER NOT NULL DEFAULT 0, status_message TEXT,
            operation_name TEXT, provider_name TEXT, agent_name TEXT, conversation_id TEXT,
            request_model TEXT, response_model TEXT,
            input_tokens INTEGER, output_tokens INTEGER, cached_tokens INTEGER, reasoning_tokens INTEGER,
            tool_name TEXT, tool_call_id TEXT, tool_type TEXT,
            chat_session_id TEXT, turn_index INTEGER, ttft_ms REAL
        );
        CREATE TABLE span_attributes (
            span_id TEXT NOT NULL REFERENCES spans(span_id) ON DELETE CASCADE,
            key TEXT NOT NULL, value TEXT,
            PRIMARY KEY (span_id, key)
        );
        CREATE TABLE span_events (
            id INTEGER PRIMARY KEY AUTOINCREMENT,
            span_id TEXT NOT NULL REFERENCES spans(span_id) ON DELETE CASCADE,
            name TEXT NOT NULL, timestamp_ms INTEGER NOT NULL, attributes TEXT
        );",
    )
    .unwrap();
    conn
}

fn insert_span(
    conn: &rusqlite::Connection,
    span_id: &str,
    end_time_ms: i64,
    input_tokens: i64,
    output_tokens: i64,
) {
    conn.execute(
        "INSERT INTO spans (span_id, trace_id, name, start_time_ms, end_time_ms, status_code, \
         operation_name, provider_name, request_model, response_model, input_tokens, output_tokens, chat_session_id) \
         VALUES (?1, 'trace1', 'chat gpt-4.1', ?2, ?3, 0, 'chat', 'github', 'gpt-4.1', 'gpt-4.1-2025-04-14', ?4, ?5, 'session1')",
        (span_id, end_time_ms - 1000, end_time_ms, input_tokens, output_tokens),
    )
    .unwrap();
}

fn failure(stage: QueryStage, error: rusqlite::Error) -> QueryFailure {
    QueryFailure { stage, message: error.to_string() }
}

fn span_row(row: &rusqlite::Row<'_>) -> rusqlite::Result<SpanRow> {
    let ttft_ms: Option<f64> = row.get(23)?;
    Ok(SpanRow {
        span_id: row.get(0)?,
        trace_id: row.get(1)?,
        parent_span_id: row.get(2)?,
        name: row.get(3)?,
        start_time_ms: row.get(4)?,
        end_time_ms: row.get(5)?,
        status_code: row.get(6)?,
        status_message: row.get(7)?,
        operation_name: row.get(8)?,
        provider_name: row.get(9)?,
        agent_name: row.get(10)?,
        conversation_id: row.get(11)?,
        request_model: row.get(12)?,
        response_model: row.get(13)?,
        input_tokens: row.get(14)?,
        output_tokens: row.get(15)?,
        cached_tokens: row.get(16)?,
        reasoning_tokens: row.get(17)?,
        tool_name: row.get(18)?,
        tool_call_id: row.get(19)?,
        tool_type: row.get(20)?,
        chat_session_id: row.get(21)?,
        turn_index: row.get(22)?,
        ttft_ms: ttft_ms.map(|ms| ms.to_bits()),
    })
}

fn attribute_row(row: &rusqlite::Row<'_>) -> rusqlite::Result<AttributeRow> {
    Ok(AttributeRow { span_id: row.get(0)?, key: row.get(1)?, value: row.get(2)? })
}

fn event_row(row: &rusqlite::Row<'_>) -> rusqlite::Result<EventRow> {
    Ok(EventRow {
        span_id: row.get(0)?,
        name: row.get(1)?,
        timestamp_ms: row.get(2)?,
        attributes: row.get(3)?,
    })
}

fn query<P: rusqlite::Params, T>(
    conn: &rusqlite::Connection,
    sql: &str,
    params: P,
    read: fn(&rusqlite::Row<'_>) -> rusqlite::Result<T>,
) -> Result<Vec<T>, QueryFailure> {
    let mut statement = conn.prepare(sql).map_err(|e| failure(QueryStage::Prepare, e))?;
    let rows = statement.query_map(params, read).map_err(|e| failure(QueryStage::Run, e))?;
    rows.collect::<Result<Vec<T>, rusqlite::Error>>()
        .map_err(|e| failure(QueryStage::ReadRow, e))
}

fn perform(conn: &rusqlite::Connection, request: SpanRequest<'_>) -> SpanReply {
    match request {
        SpanRequest::OpenDatabase { path } => {
            assert_eq!(path, &PathBuf::from("traces.db"));
            SpanReply::Opened(Ok(()))
        }
        SpanRequest::Spans { sql, after_ms, limit } => {
            SpanReply::Spans(query(conn, &sql, (after_ms, limit), span_row))
        }
        SpanRequest::Attributes { sql, span_ids } => SpanReply::Attributes(query(
            conn,
            &sql,
            rusqlite::params_from_iter(span_ids.iter()),
            attribute_row,
        )),
        SpanRequest::Events { sql, span_ids } => SpanReply::Events(query(
            conn,
            &sql,
            rusqlite::params_from_iter(span_ids.iter()),
            event_row,
        )),
    }
}

fn read(
    conn: &rusqlite::Connection,
    watermark: Watermark,
    batch_size: usize,
) -> Result<TranscriptBatch, TranscriptError> {
    let mut step = read_otel_spans_incremental(PathBuf::from("traces.db"), watermark, batch_size);
    loop {
        match step {
            Step::Ask(state) => {
                let reply = perform(conn, state.request());
                step = state.resume(reply);
            }
            Step::Done(result) => return result,
        }
    }
}

fn earliest() -> Watermark {
    let secs = chrono::DateTime::<chrono::Utc>::MIN_UTC.timestamp();
    Watermark::Timestamp(TimestampWatermark::new(secs, 0).unwrap())
}

fn at_millis(ms: i64) -> TimestampWatermark {
    TimestampWatermark::from_millis(ms).unwrap()
}

fn member<'a>(value: &'a JsonValue, key: &str) -> &'a JsonValue {
    value.get(&key.to_string()).unwrap()
}

fn text<'a>(value: &'a JsonValue) -> &'a str {
    value.as_text().unwrap().as_str()
}

fn span_id(event: &JsonValue) -> &str {
    text(member(member(event, "span"), "span_id"))
}

fn items(value: &JsonValue) -> &Vec<JsonValue> {
    match value {
        JsonValue::Array(items) => items,
        _ => panic!("no array"),
    }
}

fn fatal<T>(result: Result<T, TranscriptError>) -> String {
    match result {
        Err(TranscriptError::Fatal { message }) => message,
        _ => panic!("expected a fatal error"),
    }
}

#[test]
fn test_empty_db_returns_empty_batch() {
    let conn = create_test_otel_db();
    let batch = read(&conn, earliest(), 100).unwrap();
    assert!(batch.events.is_empty());
}

#[test]
fn test_reads_spans_after_watermark() {
    let conn = create_test_otel_db();
    insert_span(&conn, "span1", 1000, 100, 50);
    insert_span(&conn, "span2", 2000, 200, 100);
    insert_span(&conn, "span3", 3000, 300, 150);

    let batch = read(&conn, Watermark::Timestamp(at_millis(1000)), 100).unwrap();
    assert_eq!(batch.events.len(), 2);
    assert_eq!(span_id(&batch.events[0]), "span2");
    assert_eq!(span_id(&batch.events[1]), "span3");
}

#[test]
fn test_batch_size_limits_results() {
    let conn = create_test_otel_db();
    for i in 1..=5 {
        insert_span(&conn, &format!("span{}", i), i * 1000, i * 100, i * 50);
    }
    let batch = read(&conn, earliest(), 3).unwrap();
    assert_eq!(batch.events.len(), 3);
}

#[test]
fn test_batch_resume_no_loss_no_repeats() {
    let conn = create_test_otel_db();
    for i in 1..=5 {
        insert_span(&conn, &format!("span{}", i), i * 1000, i * 100, i * 50);
    }
    let mut watermark = earliest();
    let mut all_ids = Vec::new();
    loop {
        let batch = read(&conn, watermark, 2).unwrap();
        if batch.events.is_empty() {
            break;
        }
        for event in &batch.events {
            all_ids.push(span_id(event).to_string());
        }
        watermark = Watermark::Timestamp(batch.new_watermark);
    }
    assert_eq!(all_ids, vec!["span1", "span2", "span3", "span4", "span5"]);
}

#[test]
fn test_attributes_denormalized() {
    let conn = create_test_otel_db();
    insert_span(&conn, "span1", 1000, 100, 50);
    conn.execute(
        "INSERT INTO span_attributes (span_id, key, value) VALUES ('span1', 'gen_ai.request.model', 'gpt-4.1')",
        [],
    )
    .unwrap();
    conn.execute(
        "INSERT INTO span_attributes (span_id, key, value) VALUES ('span1', 'gen_ai.agent.name', 'copilot')",
        [],
    )
    .unwrap();

    let batch = read(&conn, earliest(), 100).unwrap();
    let attributes = member(&batch.events[0], "attributes");
    assert_eq!(text(member(attributes, "gen_ai.request.model")), "gpt-4.1");
    assert_eq!(text(member(attributes, "gen_ai.agent.name")), "copilot");
}

#[test]
fn test_span_events_denormalized() {
    let conn = create_test_otel_db();
    insert_span(&conn, "span1", 1000, 100, 50);
    conn.execute(
        "INSERT INTO span_events (span_id, name, timestamp_ms, attributes) VALUES ('span1', 'tool_call', 500, '{\"tool\":\"read_file\"}')",
        [],
    )
    .unwrap();

    let batch = read(&conn, earliest(), 100).unwrap();
    let events = items(member(&batch.events[0], "events"));
    assert_eq!(events.len(), 1);
    assert_eq!(text(member(&events[0], "name")), "tool_call");
    assert_eq!(member(&events[0], "timestamp_ms").as_i64(), Some(500));
    assert_eq!(text(member(member(&events[0], "attributes"), "tool")), "read_file");
}

#[test]
fn test_extract_event_ids() {
    let event = parse_json(
        "{\"span\": {\"span_id\": \"abc123\", \"parent_span_id\": \"parent456\", \
         \"tool_call_id\": \"call789\"}, \"attributes\": {}, \"events\": []}",
    )
    .unwrap();
    let (event_id, parent_id, tool_use_id) = extract_otel_event_ids(&event);
    assert_eq!(event_id, Some("abc123".to_string()));
    assert_eq!(parent_id, Some("parent456".to_string()));
    assert_eq!(tool_use_id, Some("call789".to_string()));
}

#[test]
fn test_extract_event_ids_empty_tool_call_id() {
    let event = parse_json(
        "{\"span\": {\"span_id\": \"abc\", \"parent_span_id\": null, \"tool_call_id\": \"\"}, \
         \"attributes\": {}, \"events\": []}",
    )
    .unwrap();
    let (event_id, parent_id, tool_use_id) = extract_otel_event_ids(&event);
    assert_eq!(event_id, Some("abc".to_string()));
    assert_eq!(parent_id, None);
    assert_eq!(tool_use_id, None);
}

#[test]
fn test_extract_event_timestamp() {
    let event = parse_json("{\"span\": {\"start_time_ms\": 1716556800000}}").unwrap();
    let ts = extract_otel_event_timestamp(&event);
    assert_eq!(ts, Some(1716556800));
}

#[test]
fn timestamps_of_odd_events() {
    let seconds = |text: &str| extract_otel_event_timestamp(&parse_json(text).unwrap());
    assert_eq!(seconds("{}"), None);
    assert_eq!(seconds("[]"), None);
    assert_eq!(seconds("{\"span\": {}}"), None);
    assert_eq!(seconds("{\"span\": {\"start_time_ms\": \"1000\"}}"), None);
    assert_eq!(seconds("{\"span\": {\"start_time_ms\": 1000.0}}"), None);
    assert_eq!(seconds("{\"span\": {\"start_time_ms\": 9223372036854775808}}"), None);
    assert_eq!(seconds("{\"span\": {\"start_time_ms\": 999}}"), Some(0));
    assert_eq!(seconds("{\"span\": {\"start_time_ms\": -999}}"), Some(0));
    assert_eq!(seconds("{\"span\": {\"start_time_ms\": -1000}}"), Some(4294967295));
    assert_eq!(seconds("{\"span\": {\"start_time_ms\": 4294967296000}}"), Some(0));
}

#[test]
fn ids_of_odd_events() {
    let ids = |text: &str| extract_otel_event_ids(&parse_json(text).unwrap());
    assert_eq!(ids("null"), (None, None, None));
    assert_eq!(ids("{\"span\": 1}"), (None, None, None));
    assert_eq!(
        ids("{\"span\": {\"span_id\": \"\", \"parent_span_id\": 5, \"tool_call_id\": []}}"),
        (Some("".to_string()), None, None)
    );
}

#[test]
fn watermark_moves_to_the_latest_end() {
    let conn = create_test_otel_db();
    insert_span(&conn, "b", 1234, 1, 1);
    insert_span(&conn, "a", 1234, 1, 1);
    let batch = read(&conn, earliest(), 10).unwrap();
    assert_eq!(span_id(&batch.events[0]), "a");
    assert_eq!(span_id(&batch.events[1]), "b");
    assert_eq!(batch.new_watermark.timestamp_millis(), 1234);
    assert_eq!(batch.new_watermark.parts(), (1, 234_000_000));

    let rest = read(&conn, Watermark::Timestamp(batch.new_watermark), 10).unwrap();
    assert!(rest.events.is_empty());
    assert_eq!(rest.new_watermark.parts(), (1, 234_000_000));
}

/// Without new spans the watermark stays as it is, to the nanosecond.
#[test]
fn watermark_stays_without_spans() {
    let conn = create_test_otel_db();
    let watermark = TimestampWatermark::new(5, 123_456_789).unwrap();
    let batch = read(&conn, Watermark::Timestamp(watermark), 10).unwrap();
    assert_eq!(batch.new_watermark.parts(), (5, 123_456_789));
}

/// An end that is no instant with a calendar date leaves the watermark as it
/// was.
#[test]
fn watermark_stays_at_an_impossible_end() {
    let conn = create_test_otel_db();
    insert_span(&conn, "span1", i64::MAX, 1, 1);
    let batch = read(&conn, Watermark::Timestamp(at_millis(77)), 10).unwrap();
    assert_eq!(batch.events.len(), 1);
    assert_eq!(batch.new_watermark.timestamp_millis(), 77);
}

#[test]
fn other_watermarks_are_refused() {
    let conn = create_test_otel_db();
    assert_eq!(
        fatal(read(&conn, Watermark::Other, 10)),
        "OTEL stream requires TimestampWatermark"
    );
}

#[test]
fn unopened_database_is_reported() {
    let step = read_otel_spans_incremental(PathBuf::from("traces.db"), earliest(), 1);
    let state = match step {
        Step::Ask(state) => state,
        Step::Done(_) => panic!("nothing was asked"),
    };
    let retry_after = Wait { secs: 3, nanos: 500_000_000 };
    let error = TranscriptError::Transient { message: "locked".to_string(), retry_after };
    match state.resume(SpanReply::Opened(Err(error))) {
        Step::Done(Err(TranscriptError::Transient { message, retry_after })) => {
            assert_eq!(message, "locked");
            assert_eq!(retry_after, Wait { secs: 3, nanos: 500_000_000 });
        }
        _ => panic!("the failure was lost"),
    }
}

#[test]
fn unfitting_reply_changes_nothing() {
    let step = read_otel_spans_incremental(PathBuf::from("traces.db"), earliest(), 1);
    let state = match step {
        Step::Ask(state) => state,
        Step::Done(_) => panic!("nothing was asked"),
    };
    match state.resume(SpanReply::Spans(Ok(Vec::new()))) {
        Step::Ask(state) => assert!(matches!(state.request(), SpanRequest::OpenDatabase { .. })),
        Step::Done(_) => panic!("an answer was made up"),
    }
}

fn strings(items: &[&str]) -> Vec<String> {
    items.iter().map(|s| s.to_string()).collect()
}

fn attributes_read(ids: &[&str]) -> AttributesRead {
    match read_attributes_for_spans(strings(ids)) {
        Step::Ask(read) => read,
        Step::Done(_) => panic!("nothing was asked"),
    }
}

fn events_read(ids: &[&str]) -> EventsRead {
    match read_events_for_spans(strings(ids)) {
        Step::Ask(read) => read,
        Step::Done(_) => panic!("nothing was asked"),
    }
}

/// Without spans no query is made, so that a missing table is no error.
#[test]
fn no_spans_no_queries() {
    match read_attributes_for_spans(Vec::new()) {
        Step::Done(table) => assert_eq!(table.unwrap().len(), 0),
        Step::Ask(_) => panic!("a query was made"),
    }
    match read_events_for_spans(Vec::new()) {
        Step::Done(table) => assert_eq!(table.unwrap().len(), 0),
        Step::Ask(_) => panic!("a query was made"),
    }
    let state = SpanRead::ReadingAttributes {
        watermark: at_millis(42),
        spans: Vec::new(),
        read: attributes_read(&["s1"]),
    };
    match state.resume(SpanReply::Attributes(Ok(Vec::new()))) {
        Step::Done(batch) => {
            let batch = batch.unwrap();
            assert!(batch.events.is_empty());
            assert_eq!(batch.new_watermark.timestamp_millis(), 42);
        }
        Step::Ask(_) => panic!("a query was made"),
    }
}

/// An instant in a leap second is read on from like any other.
#[test]
fn watermark_in_a_leap_second() {
    let conn = create_test_otel_db();
    insert_span(&conn, "span1", 1500, 1, 1);
    insert_span(&conn, "span2", 1501, 1, 1);
    let watermark = TimestampWatermark::new(0, 1_500_000_000).unwrap();
    let batch = read(&conn, Watermark::Timestamp(watermark), 10).unwrap();
    assert_eq!(batch.events.len(), 1);
    assert_eq!(span_id(&batch.events[0]), "span2");
    assert_eq!(batch.new_watermark.parts(), (1, 501_000_000));
}

#[test]
fn queries_have_a_parameter_per_span() {
    let spans = vec![plain_span("s1"), plain_span("s2"), plain_span("s3")];
    let read = attributes_read(&["s1", "s2", "s3"]);
    let state = SpanRead::ReadingAttributes { watermark: at_millis(0), spans, read };
    match state.request() {
        SpanRequest::Attributes { sql, span_ids } => {
            assert_eq!(
                sql,
                "SELECT span_id, key, value FROM span_attributes WHERE span_id IN (?,?,?)"
            );
            assert_eq!(span_ids, vec!["s1", "s2", "s3"]);
        }
        _ => panic!("attributes were not asked for"),
    }
    let state = SpanRead::ReadingEvents {
        watermark: at_millis(0),
        spans: vec![plain_span("s1")],
        attributes: TextMap::new(),
        read: events_read(&["s1"]),
    };
    match state.request() {
        SpanRequest::Events { sql, span_ids } => {
            assert_eq!(
                sql,
                "SELECT span_id, name, CAST(timestamp_ms AS INTEGER), attributes FROM span_events \
                 WHERE span_id IN (?) ORDER BY timestamp_ms ASC"
            );
            assert_eq!(span_ids, vec!["s1"]);
        }
        _ => panic!("events were not asked for"),
    }
    let state = SpanRead::ReadingSpans { watermark: at_millis(1500), batch_size: usize::MAX };
    match state.request() {
        SpanRequest::Spans { after_ms, limit, .. } => assert_eq!((after_ms, limit), (1500, -1)),
        _ => panic!("spans were not asked for"),
    }
}

#[test]
fn failed_queries_are_reported() {
    let failed = |stage| QueryFailure { stage, message: "no such table".to_string() };
    assert_eq!(
        fatal(read_spans_after(Err(failed(QueryStage::Prepare)))),
        "Failed to prepare spans query: no such table"
    );
    assert_eq!(
        fatal(read_spans_after(Err(failed(QueryStage::Run)))),
        "Failed to query spans: no such table"
    );
    assert_eq!(
        fatal(read_spans_after(Err(failed(QueryStage::ReadRow)))),
        "Failed to read span row: no such table"
    );
    assert_eq!(
        fatal(attributes_read(&["s1"]).resume(Err(failed(QueryStage::Prepare)))),
        "Failed to prepare attributes query: no such table"
    );
    assert_eq!(
        fatal(attributes_read(&["s1"]).resume(Err(failed(QueryStage::Run)))),
        "Failed to query attributes: no such table"
    );
    assert_eq!(
        fatal(attributes_read(&["s1"]).resume(Err(failed(QueryStage::ReadRow)))),
        "Failed to read attribute row: no such table"
    );
    assert_eq!(
        fatal(events_read(&["s1"]).resume(Err(failed(QueryStage::Prepare)))),
        "Failed to prepare events query: no such table"
    );
    assert_eq!(
        fatal(events_read(&["s1"]).resume(Err(failed(QueryStage::Run)))),
        "Failed to query events: no such table"
    );
    assert_eq!(
        fatal(events_read(&["s1"]).resume(Err(failed(QueryStage::ReadRow)))),
        "Failed to read event row: no such table"
    );
}

#[test]
fn missing_tables_are_reported() {
    let conn = rusqlite::Connection::open_in_memory().unwrap();
    let message = fatal(read(&conn, earliest(), 1));
    assert!(message.starts_with("Failed to prepare spans query: "));

    let conn = create_test_otel_db();
    insert_span(&conn, "span1", 1000, 1, 1);
    conn.execute_batch("DROP TABLE span_events").unwrap();
    let message = fatal(read(&conn, earliest(), 1));
    assert!(message.starts_with("Failed to prepare events query: "));
    conn.execute_batch("DROP TABLE span_attributes").unwrap();
    let message = fatal(read(&conn, earliest(), 1));
    assert!(message.starts_with("Failed to prepare attributes query: "));
}

fn plain_span(span_id: &str) -> SpanRow {
    SpanRow {
        span_id: span_id.to_string(),
        trace_id: "trace1".to_string(),
        parent_span_id: None,
        name: "chat".to_string(),
        start_time_ms: -5,
        end_time_ms: 10,
        status_code: 2,
        status_message: None,
        operation_name: Some("op".to_string()),
        provider_name: None,
        agent_name: None,
        conversation_id: None,
        request_model: None,
        response_model: None,
        input_tokens: Some(7),
        output_tokens: None,
        cached_tokens: None,
        reasoning_tokens: None,
        tool_name: None,
        tool_call_id: Some("call".to_string()),
        tool_type: None,
        chat_session_id: None,
        turn_index: Some(-1),
        ttft_ms: Some(1.5f64.to_bits()),
    }
}

#[test]
fn span_event_has_all_columns() {
    let mut attributes = TextMap::new();
    attributes.insert("k".to_string(), "v".to_string());
    let event = build_span_event_json(plain_span("s1"), attributes, vec![JsonValue::Bool(true)]);
    let span = member(&event, "span");
    assert_eq!(text(member(span, "span_id")), "s1");
    assert_eq!(text(member(span, "trace_id")), "trace1");
    assert!(matches!(member(span, "parent_span_id"), JsonValue::Null));
    assert_eq!(member(span, "start_time_ms").as_i64(), Some(-5));
    assert_eq!(member(span, "status_code").as_i64(), Some(2));
    assert_eq!(text(member(span, "operation_name")), "op");
    assert_eq!(member(span, "input_tokens").as_i64(), Some(7));
    assert!(matches!(member(span, "output_tokens"), JsonValue::Null));
    assert_eq!(member(span, "turn_index").as_i64(), Some(-1));
    match member(span, "ttft_ms") {
        JsonValue::Number(JsonNumber::Float(bits)) => assert_eq!(f64::from_bits(*bits), 1.5),
        _ => panic!("no floating-point number"),
    }
    match span {
        JsonValue::Object(members) => {
            let names: Vec<&str> = members.iter().map(|m| m.0.as_str()).collect();
            assert_eq!(
                names,
                vec![
                    "span_id",
                    "trace_id",
                    "parent_span_id",
                    "name",
                    "start_time_ms",
                    "end_time_ms",
                    "status_code",
                    "status_message",
                    "operation_name",
                    "provider_name",
                    "agent_name",
                    "conversation_id",
                    "request_model",
                    "response_model",
                    "input_tokens",
                    "output_tokens",
                    "cached_tokens",
                    "reasoning_tokens",
                    "tool_name",
                    "tool_call_id",
                    "tool_type",
                    "chat_session_id",
                    "turn_index",
                    "ttft_ms",
                ]
            );
        }
        _ => panic!("no object"),
    }
    assert_eq!(text(member(member(&event, "attributes"), "k")), "v");
    assert!(matches!(items(member(&event, "events"))[0], JsonValue::Bool(true)));
    assert_eq!(
        extract_otel_event_ids(&event),
        (Some("s1".to_string()), None, Some("call".to_string()))
    );
}

/// A number that is not finite has no JSON form.
#[test]
fn infinite_time_to_first_token_is_null() {
    for ms in [f64::NAN, f64::INFINITY, f64::NEG_INFINITY] {
        let mut span = plain_span("s1");
        span.ttft_ms = Some(ms.to_bits());
        let event = build_span_event_json(span, TextMap::new(), Vec::new());
        assert!(matches!(member(member(&event, "span"), "ttft_ms"), JsonValue::Null));
    }
}

#[test]
fn attributes_without_a_value_are_left_out() {
    let row = |span_id: &str, key: &str, value: Option<&str>| AttributeRow {
        span_id: span_id.to_string(),
        key: key.to_string(),
        value: value.map(|v| v.to_string()),
    };
    let table = group_attributes(vec![
        row("s1", "a", Some("1")),
        row("s2", "a", None),
        row("s1", "b", Some("2")),
        row("s1", "a", Some("3")),
    ]);
    assert_eq!(table.len(), 1);
    let own = table.get(&"s1".to_string()).unwrap();
    assert_eq!(own.len(), 2);
    assert_eq!(own.get(&"a".to_string()), Some(&"3".to_string()));
    assert_eq!(own.get(&"b".to_string()), Some(&"2".to_string()));
}

#[test]
fn events_keep_their_order_and_parse_their_attributes() {
    let row = |span_id: &str, name: &str, attributes: Option<&str>| EventRow {
        span_id: span_id.to_string(),
        name: name.to_string(),
        timestamp_ms: 9,
        attributes: attributes.map(|a| a.to_string()),
    };
    let table = group_events(vec![
        row("s1", "first", Some("[1, \"two\", {\"x\": null}]")),
        row("s2", "other", None),
        row("s1", "second", Some("{not json")),
    ]);
    let own = table.get(&"s1".to_string()).unwrap();
    assert_eq!(own.len(), 2);
    assert_eq!(text(member(&own[0], "name")), "first");
    let attributes = items(member(&own[0], "attributes"));
    assert_eq!(attributes[0].as_i64(), Some(1));
    assert_eq!(text(&attributes[1]), "two");
    assert!(matches!(member(&attributes[2], "x"), JsonValue::Null));
    assert_eq!(text(member(&own[1], "name")), "second");
    assert!(matches!(member(&own[1], "attributes"), JsonValue::Null));
    let other = table.get(&"s2".to_string()).unwrap();
    assert!(matches!(member(&other[0], "attributes"), JsonValue::Null));

    let entry = event_entry_json("n".to_string(), -3, Some(JsonValue::Bool(false)));
    assert_eq!(member(&entry, "timestamp_ms").as_i64(), Some(-3));
    assert!(matches!(member(&entry, "attributes"), JsonValue::Bool(false)));
}

#[test]
fn batch_gives_each_span_its_own() {
    let attributes = group_attributes(vec![AttributeRow {
        span_id: "s2".to_string(),
        key: "k".to_string(),
        value: Some("v".to_string()),
    }]);
    let events = group_events(vec![EventRow {
        span_id: "s1".to_string(),
        name: "e".to_string(),
        timestamp_ms: 1,
        attributes: None,
    }]);
    let batch = assemble_batch(
        at_millis(0),
        vec![plain_span("s1"), plain_span("s2")],
        &attributes,
        &events,
    );
    assert_eq!(items(member(&batch.events[0], "events")).len(), 1);
    assert_eq!(items(member(&batch.events[1], "events")).len(), 0);
    assert!(member(&batch.events[0], "attributes").get(&"k".to_string()).is_none());
    assert_eq!(text(member(member(&batch.events[1], "attributes"), "k")), "v");
    assert_eq!(batch.new_watermark.timestamp_millis(), 10);
}
