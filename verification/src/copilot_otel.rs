//! Spans of a Copilot trace database as transcript events.
use crate::json::{
    array_items, integer, lemma_member_at, lemma_no_member, lemma_object_members,
    member_pairs, members_map, object, optional_float, optional_integer, optional_text, parse_json,
    parsed_json, Json, JsonValue,
};
use crate::numbers::{quotient, seconds_u32, wrap_i64, wrapped_i64};
use crate::step::Step;
use crate::text::{copied_texts, text_of, texts};
use crate::text_map::{entry_keys, entry_map, lemma_entry, text_values, TextMap};
use crate::transcript::{
    millis_in_range, TimestampWatermark, TranscriptError, TranscriptErrorView, Watermark,
};
use std::path::PathBuf;
use vstd::prelude::*;
use vstd::string::StringExecFns;

verus! {

/// A row of the table of spans.
#[derive(Debug)]
pub struct SpanRow {
    pub span_id: String,
    pub trace_id: String,
    pub parent_span_id: Option<String>,
    pub name: String,
    pub start_time_ms: i64,
    pub end_time_ms: i64,
    pub status_code: i32,
    pub status_message: Option<String>,
    pub operation_name: Option<String>,
    pub provider_name: Option<String>,
    pub agent_name: Option<String>,
    pub conversation_id: Option<String>,
    pub request_model: Option<String>,
    pub response_model: Option<String>,
    pub input_tokens: Option<i64>,
    pub output_tokens: Option<i64>,
    pub cached_tokens: Option<i64>,
    pub reasoning_tokens: Option<i64>,
    pub tool_name: Option<String>,
    pub tool_call_id: Option<String>,
    pub tool_type: Option<String>,
    pub chat_session_id: Option<String>,
    pub turn_index: Option<i64>,
    /// The time to the first token in milliseconds, as the bits of a
    /// double-precision number.
    pub ttft_ms: Option<u64>,
}

/// The members of the object that describes a span.
pub open spec fn span_members(span: SpanRow) -> Seq<(Seq<char>, Json)> {
    seq![
        ("span_id"@, Json::Text(span.span_id@)),
        ("trace_id"@, Json::Text(span.trace_id@)),
        ("parent_span_id"@, optional_text(text_of(span.parent_span_id))),
        ("name"@, Json::Text(span.name@)),
        ("start_time_ms"@, Json::Number(integer(span.start_time_ms as int))),
        ("end_time_ms"@, Json::Number(integer(span.end_time_ms as int))),
        ("status_code"@, Json::Number(integer(span.status_code as int))),
        ("status_message"@, optional_text(text_of(span.status_message))),
        ("operation_name"@, optional_text(text_of(span.operation_name))),
        ("provider_name"@, optional_text(text_of(span.provider_name))),
        ("agent_name"@, optional_text(text_of(span.agent_name))),
        ("conversation_id"@, optional_text(text_of(span.conversation_id))),
        ("request_model"@, optional_text(text_of(span.request_model))),
        ("response_model"@, optional_text(text_of(span.response_model))),
        ("input_tokens"@, optional_integer(span.input_tokens)),
        ("output_tokens"@, optional_integer(span.output_tokens)),
        ("cached_tokens"@, optional_integer(span.cached_tokens)),
        ("reasoning_tokens"@, optional_integer(span.reasoning_tokens)),
        ("tool_name"@, optional_text(text_of(span.tool_name))),
        ("tool_call_id"@, optional_text(text_of(span.tool_call_id))),
        ("tool_type"@, optional_text(text_of(span.tool_type))),
        ("chat_session_id"@, optional_text(text_of(span.chat_session_id))),
        ("turn_index"@, optional_integer(span.turn_index)),
        ("ttft_ms"@, optional_float(span.ttft_ms)),
    ]
}

/// The event of a span: the span itself, its attributes and its own events.
pub open spec fn span_event(
    span: SpanRow,
    attributes: Map<Seq<char>, Seq<char>>,
    events: Seq<Json>,
) -> Json {
    object(
        seq![
            ("span"@, object(span_members(span))),
            (
                "attributes"@,
                Json::Object(attributes.map_values(|text: Seq<char>| Json::Text(text))),
            ),
            ("events"@, Json::Array(events)),
        ],
    )
}

/// The members of the object that describes a span.
fn span_object(span: SpanRow) -> (value: JsonValue)
    ensures
        value@ == object(span_members(span)),
{
    let mut members: Vec<(String, JsonValue)> = Vec::new();
    members.push(("span_id".to_string(), JsonValue::Text(span.span_id)));
    members.push(("trace_id".to_string(), JsonValue::Text(span.trace_id)));
    members.push(
        ("parent_span_id".to_string(), JsonValue::from_optional_text(span.parent_span_id)),
    );
    members.push(("name".to_string(), JsonValue::Text(span.name)));
    members.push(("start_time_ms".to_string(), JsonValue::from_integer(span.start_time_ms)));
    members.push(("end_time_ms".to_string(), JsonValue::from_integer(span.end_time_ms)));
    members.push(("status_code".to_string(), JsonValue::from_integer(span.status_code as i64)));
    members.push(
        ("status_message".to_string(), JsonValue::from_optional_text(span.status_message)),
    );
    members.push(
        ("operation_name".to_string(), JsonValue::from_optional_text(span.operation_name)),
    );
    members.push(("provider_name".to_string(), JsonValue::from_optional_text(span.provider_name)));
    members.push(("agent_name".to_string(), JsonValue::from_optional_text(span.agent_name)));
    members.push(
        ("conversation_id".to_string(), JsonValue::from_optional_text(span.conversation_id)),
    );
    members.push(("request_model".to_string(), JsonValue::from_optional_text(span.request_model)));
    members.push(
        ("response_model".to_string(), JsonValue::from_optional_text(span.response_model)),
    );
    members.push(("input_tokens".to_string(), JsonValue::from_optional_integer(span.input_tokens)));
    members.push(
        ("output_tokens".to_string(), JsonValue::from_optional_integer(span.output_tokens)),
    );
    members.push(
        ("cached_tokens".to_string(), JsonValue::from_optional_integer(span.cached_tokens)),
    );
    members.push(
        ("reasoning_tokens".to_string(), JsonValue::from_optional_integer(span.reasoning_tokens)),
    );
    members.push(("tool_name".to_string(), JsonValue::from_optional_text(span.tool_name)));
    members.push(("tool_call_id".to_string(), JsonValue::from_optional_text(span.tool_call_id)));
    members.push(("tool_type".to_string(), JsonValue::from_optional_text(span.tool_type)));
    members.push(
        ("chat_session_id".to_string(), JsonValue::from_optional_text(span.chat_session_id)),
    );
    members.push(("turn_index".to_string(), JsonValue::from_optional_integer(span.turn_index)));
    members.push(("ttft_ms".to_string(), JsonValue::from_optional_float(span.ttft_ms)));
    proof {
        lemma_object_members(members@);
        assert(member_pairs(members@) =~= span_members(span));
    }
    JsonValue::Object(members)
}

/// The object with the texts of `map` as members.
fn text_object(map: TextMap<String>) -> (value: JsonValue)
    ensures
        value@ == Json::Object(
            text_values(map@).map_values(|text: Seq<char>| Json::Text(text)),
        ),
{
    let ghost target = text_values(map@).map_values(|text: Seq<char>| Json::Text(text));
    let ghost source = map@;
    let entries = map.into_entries();
    let ghost all = entries@;
    let mut members: Vec<(String, JsonValue)> = Vec::new();
    for entry in it: entries
        invariant
            it.seq() == all,
            members@.len() == it.index(),
            forall|i: int|
                0 <= i < it.index() ==> #[trigger] member_pairs(members@)[i] == (
                    all[i].0@,
                    Json::Text(all[i].1@),
                ),
    {
        let ghost before = member_pairs(members@);
        let (key, text) = entry;
        members.push((key, JsonValue::Text(text)));
        assert(member_pairs(members@) =~= before.push((key@, Json::Text(text@))));
    }
    proof {
        let pairs = member_pairs(members@);
        let keys = entry_keys(all);
        lemma_object_members(members@);
        assert(forall|i: int| 0 <= i < pairs.len() ==> (#[trigger] pairs[i]).0 == keys[i]);
        assert forall|k: Seq<char>|
            #![trigger members_map(pairs).contains_key(k)]
            members_map(pairs).contains_key(k) == target.contains_key(k) && (target.contains_key(k)
                ==> members_map(pairs)[k] == target[k]) by {
            if keys.contains(k) {
                let i = keys.index_of(k);
                assert(pairs[i].0 == k);
                lemma_member_at(pairs, i);
                assert(source.contains_key(k));
            } else {
                assert forall|j: int| 0 <= j < pairs.len() implies (#[trigger] pairs[j]).0 != k by {
                    assert(keys.contains(keys[j]));
                }
                lemma_no_member(pairs, k);
                assert(!source.contains_key(k));
            }
        }
        assert(members_map(pairs) =~= target);
    }
    JsonValue::Object(members)
}

/// The event of a span, from its row, its attributes and its own events.
pub fn build_span_event_json(
    span: SpanRow,
    attributes: TextMap<String>,
    events: Vec<JsonValue>,
) -> (event: JsonValue)
    ensures
        event@ == span_event(span, text_values(attributes@), array_items(events@)),
{
    let mut members: Vec<(String, JsonValue)> = Vec::new();
    members.push(("span".to_string(), span_object(span)));
    members.push(("attributes".to_string(), text_object(attributes)));
    members.push(("events".to_string(), JsonValue::Array(events)));
    proof {
        lemma_object_members(members@);
        assert(member_pairs(members@) =~= seq![
            ("span"@, object(span_members(span))),
            (
                "attributes"@,
                Json::Object(
                    text_values(attributes@).map_values(|text: Seq<char>| Json::Text(text)),
                ),
            ),
            ("events"@, Json::Array(array_items(events@))),
        ]);
    }
    JsonValue::Object(members)
}

/// A row of the table of span attributes.
#[derive(Debug)]
pub struct AttributeRow {
    pub span_id: String,
    pub key: String,
    pub value: Option<String>,
}

/// A row of the table of span events.
#[derive(Debug)]
pub struct EventRow {
    pub span_id: String,
    pub name: String,
    pub timestamp_ms: i64,
    pub attributes: Option<String>,
}

/// The attributes of a span, or none where the table has no row for it.
pub open spec fn attributes_at(
    table: Map<Seq<char>, Map<Seq<char>, Seq<char>>>,
    span_id: Seq<char>,
) -> Map<Seq<char>, Seq<char>> {
    if table.contains_key(span_id) {
        table[span_id]
    } else {
        Map::empty()
    }
}

/// The attributes by span: a row without a value counts for nothing, and of
/// rows with the same span and key the last counts.
pub open spec fn grouped_attributes(rows: Seq<AttributeRow>) -> Map<
    Seq<char>,
    Map<Seq<char>, Seq<char>>,
>
    decreases rows.len(),
{
    if rows.len() == 0 {
        Map::empty()
    } else {
        let table = grouped_attributes(rows.drop_last());
        let row = rows.last();
        match row.value {
            Some(value) => table.insert(
                row.span_id@,
                attributes_at(table, row.span_id@).insert(row.key@, value@),
            ),
            None => table,
        }
    }
}

/// The events of a span, or none where the table has no row for it.
pub open spec fn events_at(table: Map<Seq<char>, Seq<Json>>, span_id: Seq<char>) -> Seq<Json> {
    if table.contains_key(span_id) {
        table[span_id]
    } else {
        Seq::empty()
    }
}

/// An event of a span.
pub open spec fn event_entry(name: Seq<char>, timestamp_ms: int, attributes: Json) -> Json {
    object(
        seq![
            ("name"@, Json::Text(name)),
            ("timestamp_ms"@, Json::Number(integer(timestamp_ms))),
            ("attributes"@, attributes),
        ],
    )
}

/// The attributes of an event: null where there is no text, or it is no JSON
/// document.
pub open spec fn event_attributes(text: Option<String>) -> Json {
    match text {
        Some(t) => match parsed_json(t@) {
            Some(value) => value,
            None => Json::Null,
        },
        None => Json::Null,
    }
}

/// The events by span, in the order of the rows.
pub open spec fn grouped_events(rows: Seq<EventRow>) -> Map<Seq<char>, Seq<Json>>
    decreases rows.len(),
{
    if rows.len() == 0 {
        Map::empty()
    } else {
        let table = grouped_events(rows.drop_last());
        let row = rows.last();
        table.insert(
            row.span_id@,
            events_at(table, row.span_id@).push(
                event_entry(row.name@, row.timestamp_ms as int, event_attributes(row.attributes)),
            ),
        )
    }
}

/// A table of attributes, as texts.
pub open spec fn attribute_table(table: Map<Seq<char>, TextMap<String>>) -> Map<
    Seq<char>,
    Map<Seq<char>, Seq<char>>,
> {
    table.map_values(|m: TextMap<String>| text_values(m@))
}

/// A table of events, as JSON values.
pub open spec fn event_table(table: Map<Seq<char>, Vec<JsonValue>>) -> Map<Seq<char>, Seq<Json>> {
    table.map_values(|events: Vec<JsonValue>| array_items(events@))
}

/// Groups the rows of the table of span attributes by span.
pub fn group_attributes(rows: Vec<AttributeRow>) -> (table: TextMap<TextMap<String>>)
    ensures
        attribute_table(table@) == grouped_attributes(rows@),
{
    let mut table: TextMap<TextMap<String>> = TextMap::new();
    let ghost all = rows@;
    assert(attribute_table(table@) =~= grouped_attributes(all.take(0)));
    for row in it: rows
        invariant
            it.seq() == all,
            attribute_table(table@) == grouped_attributes(all.take(it.index())),
    {
        proof {
            assert(all.take(it.index() + 1).drop_last() =~= all.take(it.index()));
        }
        if let Some(value) = row.value {
            let ghost before = table@;
            let mut own = match table.remove(&row.span_id) {
                Some(own) => own,
                None => TextMap::new(),
            };
            proof {
                assert(text_values(own@) =~= attributes_at(attribute_table(before), row.span_id@));
            }
            let ghost old_own = own@;
            own.insert(row.key, value);
            proof {
                assert(text_values(own@) =~= text_values(old_own).insert(row.key@, value@));
            }
            table.insert(row.span_id, own);
            proof {
                assert(attribute_table(table@) =~= attribute_table(before).insert(
                    row.span_id@,
                    text_values(own@),
                ));
            }
        }
    }
    assert(all.take(all.len() as int) =~= all);
    table
}

/// An event of a span, with its attributes as they were read.
pub fn event_entry_json(name: String, timestamp_ms: i64, attributes: Option<JsonValue>) -> (event:
    JsonValue)
    ensures
        event@ == event_entry(
            name@,
            timestamp_ms as int,
            match attributes {
                Some(value) => value@,
                None => Json::Null,
            },
        ),
{
    let mut members: Vec<(String, JsonValue)> = Vec::new();
    let attributes = match attributes {
        Some(value) => value,
        None => JsonValue::Null,
    };
    members.push(("name".to_string(), JsonValue::Text(name)));
    members.push(("timestamp_ms".to_string(), JsonValue::from_integer(timestamp_ms)));
    members.push(("attributes".to_string(), attributes));
    proof {
        lemma_object_members(members@);
        assert(member_pairs(members@) =~= seq![
            ("name"@, Json::Text(name@)),
            ("timestamp_ms"@, Json::Number(integer(timestamp_ms as int))),
            ("attributes"@, attributes@),
        ]);
    }
    JsonValue::Object(members)
}

/// Groups the rows of the table of span events by span.
pub fn group_events(rows: Vec<EventRow>) -> (table: TextMap<Vec<JsonValue>>)
    ensures
        event_table(table@) == grouped_events(rows@),
{
    let mut table: TextMap<Vec<JsonValue>> = TextMap::new();
    let ghost all = rows@;
    assert(event_table(table@) =~= grouped_events(all.take(0)));
    for row in it: rows
        invariant
            it.seq() == all,
            event_table(table@) == grouped_events(all.take(it.index())),
    {
        proof {
            assert(all.take(it.index() + 1).drop_last() =~= all.take(it.index()));
        }
        let ghost before = table@;
        let attributes = match row.attributes {
            Some(text) => parse_json(text.as_str()),
            None => None,
        };
        let event = event_entry_json(row.name, row.timestamp_ms, attributes);
        let mut own = match table.remove(&row.span_id) {
            Some(own) => own,
            None => Vec::new(),
        };
        proof {
            assert(array_items(own@) =~= events_at(event_table(before), row.span_id@));
            assert(own@.push(event).drop_last() =~= own@);
        }
        own.push(event);
        table.insert(row.span_id, own);
        proof {
            assert(event_table(table@) =~= event_table(before).insert(
                row.span_id@,
                array_items(own@),
            ));
        }
    }
    assert(all.take(all.len() as int) =~= all);
    table
}

/// What is selected from the table of spans, in the order in which the columns
/// of a row are read.
pub open spec fn span_columns() -> Seq<Seq<char>> {
    seq![
        "span_id"@,
        "trace_id"@,
        "parent_span_id"@,
        "name"@,
        "CAST(start_time_ms AS INTEGER)"@,
        "CAST(end_time_ms AS INTEGER)"@,
        "status_code"@,
        "status_message"@,
        "operation_name"@,
        "provider_name"@,
        "agent_name"@,
        "conversation_id"@,
        "request_model"@,
        "response_model"@,
        "input_tokens"@,
        "output_tokens"@,
        "cached_tokens"@,
        "reasoning_tokens"@,
        "tool_name"@,
        "tool_call_id"@,
        "tool_type"@,
        "chat_session_id"@,
        "turn_index"@,
        "ttft_ms"@,
    ]
}

/// What is selected from the table of attributes.
pub open spec fn attribute_columns() -> Seq<Seq<char>> {
    seq!["span_id"@, "key"@, "value"@]
}

/// What is selected from the table of span events.
pub open spec fn event_columns() -> Seq<Seq<char>> {
    seq!["span_id"@, "name"@, "CAST(timestamp_ms AS INTEGER)"@, "attributes"@]
}

/// The columns, with commas between them.
pub open spec fn column_list(columns: Seq<Seq<char>>) -> Seq<char>
    decreases columns.len(),
{
    if columns.len() == 0 {
        Seq::empty()
    } else if columns.len() == 1 {
        columns[0]
    } else {
        column_list(columns.drop_last()) + ", "@ + columns.last()
    }
}

/// The query for the spans that ended after its first parameter, the earliest
/// first and those that ended together by their identifiers, at most as many as
/// its second parameter.
pub open spec fn spans_query() -> Seq<char> {
    "SELECT "@ + column_list(span_columns())
        + " FROM spans WHERE end_time_ms > ?1 ORDER BY end_time_ms ASC, span_id ASC LIMIT ?2"@
}

/// `n` parameters of a query, separated by commas.
pub open spec fn placeholders(n: nat) -> Seq<char>
    decreases n,
{
    if n == 0 {
        Seq::empty()
    } else if n == 1 {
        "?"@
    } else {
        placeholders((n - 1) as nat) + ",?"@
    }
}

/// The query for the attributes of `n` spans.
pub open spec fn attributes_query(n: nat) -> Seq<char> {
    "SELECT "@ + column_list(attribute_columns()) + " FROM span_attributes WHERE span_id IN ("@
        + placeholders(n) + ")"@
}

/// The query for the events of `n` spans, the earliest first.
pub open spec fn events_query(n: nat) -> Seq<char> {
    "SELECT "@ + column_list(event_columns()) + " FROM span_events WHERE span_id IN ("@
        + placeholders(n) + ") ORDER BY timestamp_ms ASC"@
}

/// The names, as texts.
spec fn names_of(names: Seq<&str>) -> Seq<Seq<char>> {
    names.map_values(|name: &str| name@)
}

fn append_columns(sql: &mut String, columns: &Vec<&str>)
    ensures
        final(sql)@ == old(sql)@ + column_list(names_of(columns@)),
{
    let ghost before = sql@;
    let ghost names = names_of(columns@);
    let n: usize = columns.len();
    let mut i: usize = 0;
    assert(before + column_list(names.take(0)) =~= before);
    while i < n
        invariant
            i <= n == columns@.len(),
            names == names_of(columns@),
            sql@ == before + column_list(names.take(i as int)),
        decreases n - i,
    {
        let ghost so_far = sql@;
        if i > 0 {
            sql.append(", ");
        }
        sql.append(columns[i]);
        proof {
            let next = names.take(i + 1);
            assert(next.drop_last() =~= names.take(i as int));
            assert(next.last() == columns@[i as int]@);
            assert(sql@ =~= before + column_list(next));
        }
        i = i + 1;
    }
    assert(names.take(n as int) =~= names);
}

fn spans_query_text() -> (sql: String)
    ensures
        sql@ == spans_query(),
{
    let columns: Vec<&str> = vec![
        "span_id",
        "trace_id",
        "parent_span_id",
        "name",
        "CAST(start_time_ms AS INTEGER)",
        "CAST(end_time_ms AS INTEGER)",
        "status_code",
        "status_message",
        "operation_name",
        "provider_name",
        "agent_name",
        "conversation_id",
        "request_model",
        "response_model",
        "input_tokens",
        "output_tokens",
        "cached_tokens",
        "reasoning_tokens",
        "tool_name",
        "tool_call_id",
        "tool_type",
        "chat_session_id",
        "turn_index",
        "ttft_ms",
    ];
    assert(names_of(columns@) =~= span_columns());
    let mut sql = "SELECT ".to_string();
    append_columns(&mut sql, &columns);
    sql.append(
        " FROM spans WHERE end_time_ms > ?1 ORDER BY end_time_ms ASC, span_id ASC LIMIT ?2",
    );
    sql
}

fn placeholders_text(n: usize) -> (text: String)
    ensures
        text@ == placeholders(n as nat),
{
    if n == 0 {
        return String::new();
    }
    let mut text = "?".to_string();
    let mut i: usize = 1;
    while i < n
        invariant
            1 <= i <= n,
            text@ == placeholders(i as nat),
        decreases n - i,
    {
        text.append(",?");
        i = i + 1;
    }
    text
}

fn attributes_query_text(n: usize) -> (sql: String)
    ensures
        sql@ == attributes_query(n as nat),
{
    let columns: Vec<&str> = vec!["span_id", "key", "value"];
    assert(names_of(columns@) =~= attribute_columns());
    let mut sql = "SELECT ".to_string();
    append_columns(&mut sql, &columns);
    sql.append(" FROM span_attributes WHERE span_id IN (");
    sql.append(placeholders_text(n).as_str());
    sql.append(")");
    sql
}

fn events_query_text(n: usize) -> (sql: String)
    ensures
        sql@ == events_query(n as nat),
{
    let columns: Vec<&str> = vec![
        "span_id",
        "name",
        "CAST(timestamp_ms AS INTEGER)",
        "attributes",
    ];
    assert(names_of(columns@) =~= event_columns());
    let mut sql = "SELECT ".to_string();
    append_columns(&mut sql, &columns);
    sql.append(" FROM span_events WHERE span_id IN (");
    sql.append(placeholders_text(n).as_str());
    sql.append(") ORDER BY timestamp_ms ASC");
    sql
}

/// Where a query failed.
#[derive(Clone, Copy, Debug)]
pub enum QueryStage {
    /// The query could not be prepared.
    Prepare,
    /// The query could not be run.
    Run,
    /// A row of its result could not be read.
    ReadRow,
}

/// Why a query failed.
#[derive(Debug)]
pub struct QueryFailure {
    pub stage: QueryStage,
    pub message: String,
}

/// The error for a failed query, from what introduces the database's message
/// at each stage.
pub open spec fn query_error(
    failure: QueryFailure,
    prepare: Seq<char>,
    run: Seq<char>,
    read_row: Seq<char>,
) -> TranscriptErrorView {
    let intro = match failure.stage {
        QueryStage::Prepare => prepare,
        QueryStage::Run => run,
        QueryStage::ReadRow => read_row,
    };
    TranscriptErrorView::Fatal { message: intro + failure.message@ }
}

/// The error for a failed query of the spans.
pub open spec fn spans_error(failure: QueryFailure) -> TranscriptErrorView {
    query_error(
        failure,
        "Failed to prepare spans query: "@,
        "Failed to query spans: "@,
        "Failed to read span row: "@,
    )
}

/// The error for a failed query of the attributes.
pub open spec fn attributes_error(failure: QueryFailure) -> TranscriptErrorView {
    query_error(
        failure,
        "Failed to prepare attributes query: "@,
        "Failed to query attributes: "@,
        "Failed to read attribute row: "@,
    )
}

/// The error for a failed query of the events.
pub open spec fn events_error(failure: QueryFailure) -> TranscriptErrorView {
    query_error(
        failure,
        "Failed to prepare events query: "@,
        "Failed to query events: "@,
        "Failed to read event row: "@,
    )
}

fn failed_query(failure: QueryFailure, prepare: &str, run: &str, read_row: &str) -> (error:
    TranscriptError)
    ensures
        error@ == query_error(failure, prepare@, run@, read_row@),
{
    let mut message = match failure.stage {
        QueryStage::Prepare => prepare.to_string(),
        QueryStage::Run => run.to_string(),
        QueryStage::ReadRow => read_row.to_string(),
    };
    message.append(failure.message.as_str());
    TranscriptError::Fatal { message }
}

/// The spans, from the outcome of their query.
pub fn read_spans_after(outcome: Result<Vec<SpanRow>, QueryFailure>) -> (spans: Result<
    Vec<SpanRow>,
    TranscriptError,
>)
    ensures
        match outcome {
            Ok(rows) => spans == Ok::<Vec<SpanRow>, TranscriptError>(rows),
            Err(failure) => spans matches Err(e) && e@ == spans_error(failure),
        },
{
    match outcome {
        Ok(rows) => Ok(rows),
        Err(failure) => Err(
            failed_query(
                failure,
                "Failed to prepare spans query: ",
                "Failed to query spans: ",
                "Failed to read span row: ",
            ),
        ),
    }
}

/// What a [`SpanRead`] needs from the trace database.
#[derive(Debug)]
pub enum SpanRequest<'a> {
    /// Open the database at `path` for reading.
    OpenDatabase { path: &'a PathBuf },
    /// Run `sql` with `after_ms` and `limit` as parameters.
    Spans { sql: String, after_ms: i64, limit: i64 },
    /// Run `sql` with the identifiers as parameters.
    Attributes { sql: String, span_ids: Vec<String> },
    /// Run `sql` with the identifiers as parameters.
    Events { sql: String, span_ids: Vec<String> },
}

/// What the trace database answered.
#[derive(Debug)]
pub enum SpanReply {
    Opened(Result<(), TranscriptError>),
    Spans(Result<Vec<SpanRow>, QueryFailure>),
    Attributes(Result<Vec<AttributeRow>, QueryFailure>),
    Events(Result<Vec<EventRow>, QueryFailure>),
}

/// The identifiers of the spans.
pub open spec fn span_ids(spans: Seq<SpanRow>) -> Seq<Seq<char>> {
    spans.map_values(|span: SpanRow| span.span_id@)
}

fn span_id_list(spans: &Vec<SpanRow>) -> (ids: Vec<String>)
    ensures
        texts(ids@) == span_ids(spans@),
{
    let n: usize = spans.len();
    let mut ids: Vec<String> = Vec::new();
    let mut i: usize = 0;
    while i < n
        invariant
            i <= n == spans@.len(),
            texts(ids@) == span_ids(spans@.take(i as int)),
        decreases n - i,
    {
        let ghost before = texts(ids@);
        ids.push(spans[i].span_id.clone());
        i = i + 1;
        proof {
            assert(texts(ids@) =~= before.push(spans@[i - 1].span_id@));
            assert(span_ids(spans@.take(i as int)) =~= before.push(spans@[i - 1].span_id@));
        }
    }
    assert(spans@.take(n as int) =~= spans@);
    ids
}

/// A read of the attributes of spans under way. It has spans to ask for.
#[derive(Debug)]
pub struct AttributesRead {
    span_ids: Vec<String>,
}

/// How a read of the attributes of spans stands.
pub type AttributesReadStep = Step<
    AttributesRead,
    Result<TextMap<TextMap<String>>, TranscriptError>,
>;

impl AttributesRead {
    #[verifier::type_invariant]
    spec fn has_spans(self) -> bool {
        self.span_ids@.len() > 0
    }

    /// The identifiers of the spans.
    pub closed spec fn span_ids(self) -> Seq<Seq<char>> {
        texts(self.span_ids@)
    }

    /// Whether `request` is what the read needs.
    pub open spec fn needs(self, request: SpanRequest) -> bool {
        &&& request matches SpanRequest::Attributes { sql, span_ids: ids }
        &&& sql@ == attributes_query(ids@.len())
        &&& texts(ids@) == self.span_ids()
        &&& ids@.len() > 0
    }

    /// What the read needs.
    pub fn request(&self) -> (request: SpanRequest<'_>)
        ensures
            self.needs(request),
    {
        proof {
            use_type_invariant(self);
        }
        SpanRequest::Attributes {
            sql: attributes_query_text(self.span_ids.len()),
            span_ids: copied_texts(self.span_ids.as_slice()),
        }
    }

    /// The attributes by span, from the outcome of their query.
    pub fn resume(self, outcome: Result<Vec<AttributeRow>, QueryFailure>) -> (table: Result<
        TextMap<TextMap<String>>,
        TranscriptError,
    >)
        ensures
            match outcome {
                Ok(rows) => table matches Ok(t) && attribute_table(t@) == grouped_attributes(rows@),
                Err(failure) => table matches Err(e) && e@ == attributes_error(failure),
            },
    {
        match outcome {
            Ok(rows) => Ok(group_attributes(rows)),
            Err(failure) => Err(
                failed_query(
                    failure,
                    "Failed to prepare attributes query: ",
                    "Failed to query attributes: ",
                    "Failed to read attribute row: ",
                ),
            ),
        }
    }
}

/// Begins to read the attributes of the spans with these identifiers. Without any,
/// the table is empty, and no query is made.
pub fn read_attributes_for_spans(span_ids: Vec<String>) -> (step: AttributesReadStep)
    ensures
        if span_ids@.len() == 0 {
            &&& step matches Step::Done(Ok(table))
            &&& table@ == Map::<Seq<char>, TextMap<String>>::empty()
        } else {
            step matches Step::Ask(read) && read.span_ids() == texts(span_ids@)
        },
{
    if span_ids.len() == 0 {
        Step::Done(Ok(TextMap::new()))
    } else {
        Step::Ask(AttributesRead { span_ids })
    }
}

/// A read of the events of spans under way. It has spans to ask for.
#[derive(Debug)]
pub struct EventsRead {
    span_ids: Vec<String>,
}

/// How a read of the events of spans stands.
pub type EventsReadStep = Step<EventsRead, Result<TextMap<Vec<JsonValue>>, TranscriptError>>;

impl EventsRead {
    #[verifier::type_invariant]
    spec fn has_spans(self) -> bool {
        self.span_ids@.len() > 0
    }

    /// The identifiers of the spans.
    pub closed spec fn span_ids(self) -> Seq<Seq<char>> {
        texts(self.span_ids@)
    }

    /// Whether `request` is what the read needs.
    pub open spec fn needs(self, request: SpanRequest) -> bool {
        &&& request matches SpanRequest::Events { sql, span_ids: ids }
        &&& sql@ == events_query(ids@.len())
        &&& texts(ids@) == self.span_ids()
        &&& ids@.len() > 0
    }

    /// What the read needs.
    pub fn request(&self) -> (request: SpanRequest<'_>)
        ensures
            self.needs(request),
    {
        proof {
            use_type_invariant(self);
        }
        SpanRequest::Events {
            sql: events_query_text(self.span_ids.len()),
            span_ids: copied_texts(self.span_ids.as_slice()),
        }
    }

    /// The events by span, from the outcome of their query.
    pub fn resume(self, outcome: Result<Vec<EventRow>, QueryFailure>) -> (table: Result<
        TextMap<Vec<JsonValue>>,
        TranscriptError,
    >)
        ensures
            match outcome {
                Ok(rows) => table matches Ok(t) && event_table(t@) == grouped_events(rows@),
                Err(failure) => table matches Err(e) && e@ == events_error(failure),
            },
    {
        match outcome {
            Ok(rows) => Ok(group_events(rows)),
            Err(failure) => Err(
                failed_query(
                    failure,
                    "Failed to prepare events query: ",
                    "Failed to query events: ",
                    "Failed to read event row: ",
                ),
            ),
        }
    }
}

/// Begins to read the events of the spans with these identifiers. Without any,
/// the table is empty, and no query is made.
pub fn read_events_for_spans(span_ids: Vec<String>) -> (step: EventsReadStep)
    ensures
        if span_ids@.len() == 0 {
            &&& step matches Step::Done(Ok(table))
            &&& table@ == Map::<Seq<char>, Vec<JsonValue>>::empty()
        } else {
            step matches Step::Ask(read) && read.span_ids() == texts(span_ids@)
        },
{
    if span_ids.len() == 0 {
        Step::Done(Ok(TextMap::new()))
    } else {
        Step::Ask(EventsRead { span_ids })
    }
}

/// Events read from a stream, and the watermark from which to read on.
#[derive(Debug)]
pub struct TranscriptBatch {
    pub events: Vec<JsonValue>,
    pub new_watermark: TimestampWatermark,
}

/// The latest end of a span, or `otherwise` where there is no span.
pub open spec fn latest_end(spans: Seq<SpanRow>, otherwise: int) -> int
    decreases spans.len(),
{
    if spans.len() == 0 {
        otherwise
    } else if spans.len() == 1 {
        spans[0].end_time_ms as int
    } else {
        let before = latest_end(spans.drop_last(), otherwise);
        if before <= spans.last().end_time_ms {
            spans.last().end_time_ms as int
        } else {
            before
        }
    }
}

/// Whether `after` is the watermark from which to read on once `spans` were
/// read from `before` on: the latest end of a span, to the millisecond; or
/// `before` itself where that is no instant with a calendar date.
pub open spec fn advanced(
    before: TimestampWatermark,
    spans: Seq<SpanRow>,
    after: TimestampWatermark,
) -> bool {
    let ms = latest_end(spans, before.millis());
    if millis_in_range(ms) {
        after@ == (ms / 1000, (ms % 1000) * 1_000_000) && after.millis() == ms
    } else {
        after == before
    }
}

/// Whether `batch` holds the events of `spans`, in order.
pub open spec fn batch_events(
    spans: Seq<SpanRow>,
    attributes: Map<Seq<char>, Map<Seq<char>, Seq<char>>>,
    events: Map<Seq<char>, Seq<Json>>,
    batch: Seq<JsonValue>,
) -> bool {
    &&& batch.len() == spans.len()
    &&& forall|i: int|
        0 <= i < spans.len() ==> (#[trigger] batch[i])@ == span_event(
            spans[i],
            attributes_at(attributes, spans[i].span_id@),
            events_at(events, spans[i].span_id@),
        )
}

fn latest_end_time(spans: &Vec<SpanRow>, otherwise: i64) -> (ms: i64)
    ensures
        ms == latest_end(spans@, otherwise as int),
{
    let n: usize = spans.len();
    if n == 0 {
        return otherwise;
    }
    let mut latest: i64 = spans[0].end_time_ms;
    let mut i: usize = 1;
    while i < n
        invariant
            1 <= i <= n == spans@.len(),
            latest == latest_end(spans@.take(i as int), otherwise as int),
        decreases n - i,
    {
        assert(spans@.take(i + 1).drop_last() =~= spans@.take(i as int));
        if latest <= spans[i].end_time_ms {
            latest = spans[i].end_time_ms;
        }
        i = i + 1;
    }
    assert(spans@.take(n as int) =~= spans@);
    latest
}

fn copy_texts(map: &TextMap<String>) -> (copy: TextMap<String>)
    ensures
        copy@ == map@,
{
    let entries = map.entries();
    let n: usize = entries.len();
    let ghost keys = entry_keys(entries@);
    let mut copy: TextMap<String> = TextMap::new();
    let mut i: usize = 0;
    while i < n
        invariant
            i <= n == entries@.len(),
            keys == entry_keys(entries@),
            keys.no_duplicates(),
            map@ == entry_map(entries@),
            forall|k: Seq<char>|
                #![trigger copy@.contains_key(k)]
                copy@.contains_key(k) ==> map@.contains_key(k) && copy@[k] == map@[k],
            forall|j: int| 0 <= j < i ==> copy@.contains_key(#[trigger] keys[j]),
        decreases n - i,
    {
        proof {
            lemma_entry(entries@, i as int);
            assert(keys[i as int] == entries@[i as int].0@);
        }
        copy.insert(entries[i].0.clone(), entries[i].1.clone());
        i = i + 1;
    }
    proof {
        assert forall|k: Seq<char>| map@.contains_key(k) implies copy@.contains_key(k) by {
            assert(keys.contains(k));
            let j = keys.index_of(k);
            assert(copy@.contains_key(keys[j]));
        }
        assert(copy@ =~= map@);
    }
    copy
}

fn copy_values(values: &Vec<JsonValue>) -> (copies: Vec<JsonValue>)
    ensures
        array_items(copies@) == array_items(values@),
{
    let n: usize = values.len();
    let mut copies: Vec<JsonValue> = Vec::new();
    let mut i: usize = 0;
    assert(array_items(copies@) =~= array_items(values@.take(0)));
    while i < n
        invariant
            i <= n == values@.len(),
            array_items(copies@) == array_items(values@.take(i as int)),
        decreases n - i,
    {
        let copy = values[i].duplicate();
        proof {
            assert(copies@.push(copy).drop_last() =~= copies@);
            assert(values@.take(i + 1).drop_last() =~= values@.take(i as int));
        }
        copies.push(copy);
        i = i + 1;
    }
    assert(values@.take(n as int) =~= values@);
    copies
}

/// The batch of `spans` that were read from `watermark` on, with their
/// attributes and events.
pub fn assemble_batch(
    watermark: TimestampWatermark,
    spans: Vec<SpanRow>,
    attributes: &TextMap<TextMap<String>>,
    events: &TextMap<Vec<JsonValue>>,
) -> (batch: TranscriptBatch)
    ensures
        batch_events(
            spans@,
            attribute_table(attributes@),
            event_table(events@),
            batch.events@,
        ),
        advanced(watermark, spans@, batch.new_watermark),
{
    let latest = latest_end_time(&spans, watermark.timestamp_millis());
    let new_watermark = match TimestampWatermark::from_millis(latest) {
        Some(w) => w,
        None => watermark,
    };
    let ghost all = spans@;
    let ghost attribute_texts = attribute_table(attributes@);
    let ghost event_values = event_table(events@);
    let mut batch: Vec<JsonValue> = Vec::new();
    for span in it: spans
        invariant
            it.seq() == all,
            attribute_texts == attribute_table(attributes@),
            event_values == event_table(events@),
            batch@.len() == it.index(),
            forall|i: int|
                0 <= i < it.index() ==> (#[trigger] batch@[i])@ == span_event(
                    all[i],
                    attributes_at(attribute_texts, all[i].span_id@),
                    events_at(event_values, all[i].span_id@),
                ),
    {
        let span_attributes = match attributes.get(&span.span_id) {
            Some(own) => copy_texts(own),
            None => TextMap::new(),
        };
        let span_events = match events.get(&span.span_id) {
            Some(own) => copy_values(own),
            None => Vec::new(),
        };
        proof {
            assert(text_values(span_attributes@) =~= attributes_at(
                attribute_texts,
                span.span_id@,
            ));
            assert(array_items(span_events@) =~= events_at(event_values, span.span_id@));
        }
        batch.push(build_span_event_json(span, span_attributes, span_events));
    }
    TranscriptBatch { events: batch, new_watermark }
}

/// An incremental read of the spans, waiting for the trace database.
#[derive(Debug)]
pub enum SpanRead {
    /// The database is to be opened.
    Opening { path: PathBuf, watermark: TimestampWatermark, batch_size: usize },
    /// The spans after the watermark are to be read.
    ReadingSpans { watermark: TimestampWatermark, batch_size: usize },
    /// The attributes of the spans are to be read.
    ReadingAttributes {
        watermark: TimestampWatermark,
        spans: Vec<SpanRow>,
        read: AttributesRead,
    },
    /// The events of the spans are to be read.
    ReadingEvents {
        watermark: TimestampWatermark,
        spans: Vec<SpanRow>,
        attributes: TextMap<TextMap<String>>,
        read: EventsRead,
    },
}

/// The outcome of an incremental read.
pub type SpanReadStep = Step<SpanRead, Result<TranscriptBatch, TranscriptError>>;

impl SpanRead {
    /// Whether `request` is what the read needs next.
    pub open spec fn needs(self, request: SpanRequest) -> bool {
        match self {
            SpanRead::Opening { path, .. } => {
                request matches SpanRequest::OpenDatabase { path: p } && *p == path
            },
            SpanRead::ReadingSpans { watermark, batch_size } => {
                &&& request matches SpanRequest::Spans { sql, after_ms, limit }
                &&& sql@ == spans_query()
                &&& after_ms == watermark.millis()
                &&& limit == wrapped_i64(batch_size as int)
            },
            SpanRead::ReadingAttributes { read, .. } => read.needs(request),
            SpanRead::ReadingEvents { read, .. } => read.needs(request),
        }
    }

    /// Whether `step` is how the read goes on after `reply`.
    pub open spec fn goes_on(self, reply: SpanReply, step: SpanReadStep) -> bool {
        match (self, reply) {
            (SpanRead::Opening { watermark, batch_size, .. }, SpanReply::Opened(outcome)) => {
                match outcome {
                    Ok(_) => step == SpanReadStep::Ask(
                        SpanRead::ReadingSpans { watermark, batch_size },
                    ),
                    Err(e) => step == SpanReadStep::Done(Err(e)),
                }
            },
            (SpanRead::ReadingSpans { watermark, .. }, SpanReply::Spans(outcome)) => {
                match outcome {
                    Ok(spans) => if spans@.len() == 0 {
                        &&& step matches SpanReadStep::Done(Ok(batch))
                        &&& batch.events@.len() == 0
                        &&& batch.new_watermark == watermark
                    } else {
                        &&& step matches SpanReadStep::Ask(
                            SpanRead::ReadingAttributes { watermark: w, spans: s, read },
                        )
                        &&& w == watermark
                        &&& s == spans
                        &&& read.span_ids() == span_ids(spans@)
                    },
                    Err(failure) => {
                        step matches SpanReadStep::Done(Err(e)) && e@ == spans_error(failure)
                    },
                }
            },
            (
                SpanRead::ReadingAttributes { watermark, spans, .. },
                SpanReply::Attributes(outcome),
            ) => {
                match outcome {
                    Ok(rows) => if spans@.len() == 0 {
                        &&& step matches SpanReadStep::Done(Ok(batch))
                        &&& batch.events@.len() == 0
                        &&& advanced(watermark, spans@, batch.new_watermark)
                    } else {
                        &&& step matches SpanReadStep::Ask(
                            SpanRead::ReadingEvents { watermark: w, spans: s, attributes, read },
                        )
                        &&& w == watermark
                        &&& s == spans
                        &&& attribute_table(attributes@) == grouped_attributes(rows@)
                        &&& read.span_ids() == span_ids(spans@)
                    },
                    Err(failure) => {
                        step matches SpanReadStep::Done(Err(e)) && e@ == attributes_error(failure)
                    },
                }
            },
            (
                SpanRead::ReadingEvents { watermark, spans, attributes, .. },
                SpanReply::Events(outcome),
            ) => {
                match outcome {
                    Ok(rows) => {
                        &&& step matches SpanReadStep::Done(Ok(batch))
                        &&& batch_events(
                            spans@,
                            attribute_table(attributes@),
                            grouped_events(rows@),
                            batch.events@,
                        )
                        &&& advanced(watermark, spans@, batch.new_watermark)
                    },
                    Err(failure) => {
                        step matches SpanReadStep::Done(Err(e)) && e@ == events_error(failure)
                    },
                }
            },
            _ => step == SpanReadStep::Ask(self),
        }
    }

    /// What the read needs next.
    pub fn request(&self) -> (request: SpanRequest<'_>)
        ensures
            self.needs(request),
    {
        match self {
            SpanRead::Opening { path, .. } => SpanRequest::OpenDatabase { path },
            SpanRead::ReadingSpans { watermark, batch_size } => SpanRequest::Spans {
                sql: spans_query_text(),
                after_ms: watermark.timestamp_millis(),
                limit: wrap_i64(*batch_size as u64),
            },
            SpanRead::ReadingAttributes { read, .. } => read.request(),
            SpanRead::ReadingEvents { read, .. } => read.request(),
        }
    }

    /// Goes on with what the database answered.
    pub fn resume(self, reply: SpanReply) -> (step: SpanReadStep)
        ensures
            self.goes_on(reply, step),
    {
        match (self, reply) {
            (SpanRead::Opening { watermark, batch_size, .. }, SpanReply::Opened(outcome)) => {
                match outcome {
                    Ok(_) => Step::Ask(SpanRead::ReadingSpans { watermark, batch_size }),
                    Err(e) => Step::Done(Err(e)),
                }
            },
            (SpanRead::ReadingSpans { watermark, .. }, SpanReply::Spans(outcome)) => {
                match read_spans_after(outcome) {
                    Ok(spans) => if spans.len() == 0 {
                        Step::Done(
                            Ok(TranscriptBatch { events: Vec::new(), new_watermark: watermark }),
                        )
                    } else {
                        let ids = span_id_list(&spans);
                        assert(texts(ids@).len() == spans@.len());
                        match read_attributes_for_spans(ids) {
                            Step::Ask(read) => Step::Ask(
                                SpanRead::ReadingAttributes { watermark, spans, read },
                            ),
                            Step::Done(_) => vstd::pervasive::unreached(),
                        }
                    },
                    Err(e) => Step::Done(Err(e)),
                }
            },
            (
                SpanRead::ReadingAttributes { watermark, spans, read },
                SpanReply::Attributes(outcome),
            ) => {
                match read.resume(outcome) {
                    Ok(attributes) => {
                        let ids = span_id_list(&spans);
                        assert(texts(ids@).len() == spans@.len());
                        match read_events_for_spans(ids) {
                            Step::Ask(read) => Step::Ask(
                                SpanRead::ReadingEvents { watermark, spans, attributes, read },
                            ),
                            Step::Done(Ok(events)) => Step::Done(
                                Ok(assemble_batch(watermark, spans, &attributes, &events)),
                            ),
                            Step::Done(Err(e)) => Step::Done(Err(e)),
                        }
                    },
                    Err(e) => Step::Done(Err(e)),
                }
            },
            (
                SpanRead::ReadingEvents { watermark, spans, attributes, read },
                SpanReply::Events(outcome),
            ) => {
                match read.resume(outcome) {
                    Ok(events) => Step::Done(
                        Ok(assemble_batch(watermark, spans, &attributes, &events)),
                    ),
                    Err(e) => Step::Done(Err(e)),
                }
            },
            (state, _) => Step::Ask(state),
        }
    }
}

/// Begins to read spans from the trace database at `path`, at most
/// `batch_size` of those that ended after the watermark.
pub fn read_otel_spans_incremental(path: PathBuf, watermark: Watermark, batch_size: usize) -> (step:
    SpanReadStep)
    ensures
        match watermark {
            Watermark::Timestamp(w) => step == SpanReadStep::Ask(
                SpanRead::Opening { path, watermark: w, batch_size },
            ),
            Watermark::Other => {
                &&& step matches SpanReadStep::Done(Err(e))
                &&& e@ == (TranscriptErrorView::Fatal {
                    message: "OTEL stream requires TimestampWatermark"@,
                })
            },
        },
{
    match watermark {
        Watermark::Timestamp(w) => Step::Ask(SpanRead::Opening { path, watermark: w, batch_size }),
        Watermark::Other => Step::Done(
            Err(
                TranscriptError::Fatal {
                    message: "OTEL stream requires TimestampWatermark".to_string(),
                },
            ),
        ),
    }
}

/// The identifiers that an event names: of its span, of the parent span and of
/// the tool call, where the last is not empty.
pub open spec fn event_ids(event: Json) -> (
    Option<Seq<char>>,
    Option<Seq<char>>,
    Option<Seq<char>>,
) {
    let tool = span_text(event, "tool_call_id"@);
    (
        span_text(event, "span_id"@),
        span_text(event, "parent_span_id"@),
        match tool {
            Some(id) => if id.len() == 0 {
                None
            } else {
                tool
            },
            None => None,
        },
    )
}

/// The text that the span of `event` has at `key`.
pub open spec fn span_text(event: Json, key: Seq<char>) -> Option<Seq<char>> {
    match event.member("span"@) {
        Some(span) => match span.member(key) {
            Some(value) => value.text(),
            None => None,
        },
        None => None,
    }
}

/// The second in which the span of an event started, modulo two to the power
/// of 32.
pub open spec fn event_seconds(event: Json) -> Option<int> {
    match event.member("span"@) {
        Some(span) => match span.member("start_time_ms"@) {
            Some(value) => match value.int64() {
                Some(ms) => Some(quotient(ms, 1000) % 0x1_0000_0000),
                None => None,
            },
            None => None,
        },
        None => None,
    }
}

fn copy_span_text(event: &JsonValue, key: &str) -> (text: Option<String>)
    ensures
        text_of(text) == span_text(event@, key@),
{
    match event.get(&"span".to_string()) {
        Some(span) => match span.get(&key.to_string()) {
            Some(value) => match value.as_text() {
                Some(text) => Some(text.clone()),
                None => None,
            },
            None => None,
        },
        None => None,
    }
}

/// The identifiers that an event names: of the event, which is its span, of
/// the parent event and of the tool use.
pub fn extract_otel_event_ids(event: &JsonValue) -> (ids: (
    Option<String>,
    Option<String>,
    Option<String>,
))
    ensures
        (text_of(ids.0), text_of(ids.1), text_of(ids.2)) == event_ids(event@),
{
    let tool_use_id = match copy_span_text(event, "tool_call_id") {
        Some(id) => if id.as_str().is_empty() {
            None
        } else {
            Some(id)
        },
        None => None,
    };
    (copy_span_text(event, "span_id"), copy_span_text(event, "parent_span_id"), tool_use_id)
}

/// The second, counted from the Unix epoch, in which the span of an event
/// started.
pub fn extract_otel_event_timestamp(event: &JsonValue) -> (seconds: Option<u32>)
    ensures
        match seconds {
            Some(s) => event_seconds(event@) == Some(s as int),
            None => event_seconds(event@) is None,
        },
{
    match event.get(&"span".to_string()) {
        Some(span) => match span.get(&"start_time_ms".to_string()) {
            Some(value) => match value.as_i64() {
                Some(ms) => Some(seconds_u32(ms)),
                None => None,
            },
            None => None,
        },
        None => None,
    }
}

} // verus!
