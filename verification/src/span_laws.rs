//! Laws of the span events.
use crate::copilot_otel::{
    advanced, attributes_at, attributes_query, batch_events, event_ids, event_seconds, events_at,
    events_query, grouped_attributes, grouped_events, latest_end, span_event, span_ids,
    span_members, spans_query, AttributeRow, EventRow, QueryFailure, QueryStage, SpanRead,
    SpanReadStep, SpanReply, SpanRequest, SpanRow, TranscriptBatch,
};
use crate::json::{lemma_member_at, object, Json, JsonValue};
use crate::numbers::{quotient, wrapped_i64};
use crate::query_laws::{
    law_the_attributes_query_names_each_span, law_the_events_query_names_each_span,
    law_the_spans_query_selects_the_columns_in_order, parameters_between, read_select,
};
use crate::text::{text_of, texts};
use crate::transcript::{millis_in_range, TimestampWatermark, TranscriptErrorView};
use std::path::PathBuf;
use vstd::prelude::*;

verus! {

/// A number by which the names of the members of a span are told apart.
spec fn key_code(key: Seq<char>) -> int {
    key.len() * 1000000 + (key[0] as int) * 1000 + if key.len() > 5 {
        key[5] as int
    } else {
        0
    }
}

spec fn key_codes() -> Seq<int> {
    seq![
            7115105,
            8116095,
            14112116,
            4110000,
            13115095,
            11101105,
            11115115,
            14115115,
            14111116,
            13112100,
            10097095,
            15099114,
            13114115,
            14114110,
            12105095,
            13111116,
            13099100,
            16114110,
            9116110,
            12116099,
            9116116,
            15099115,
            10116105,
            7116109,
    ]
}

proof fn lemma_key_codes(span: SpanRow)
    ensures
        span_members(span).len() == key_codes().len(),
        forall|i: int|
            0 <= i < key_codes().len() ==> key_code((#[trigger] span_members(span)[i]).0)
                == key_codes()[i],
{
    let members = span_members(span);
    reveal_strlit("span_id");
    reveal_strlit("trace_id");
    reveal_strlit("parent_span_id");
    reveal_strlit("name");
    reveal_strlit("start_time_ms");
    reveal_strlit("end_time_ms");
    reveal_strlit("status_code");
    reveal_strlit("status_message");
    reveal_strlit("operation_name");
    reveal_strlit("provider_name");
    reveal_strlit("agent_name");
    reveal_strlit("conversation_id");
    reveal_strlit("request_model");
    reveal_strlit("response_model");
    reveal_strlit("input_tokens");
    reveal_strlit("output_tokens");
    reveal_strlit("cached_tokens");
    reveal_strlit("reasoning_tokens");
    reveal_strlit("tool_name");
    reveal_strlit("tool_call_id");
    reveal_strlit("tool_type");
    reveal_strlit("chat_session_id");
    reveal_strlit("turn_index");
    reveal_strlit("ttft_ms");
    assert(key_code(members[0].0) == 7115105);
    assert(key_code(members[1].0) == 8116095);
    assert(key_code(members[2].0) == 14112116);
    assert(key_code(members[3].0) == 4110000);
    assert(key_code(members[4].0) == 13115095);
    assert(key_code(members[5].0) == 11101105);
    assert(key_code(members[6].0) == 11115115);
    assert(key_code(members[7].0) == 14115115);
    assert(key_code(members[8].0) == 14111116);
    assert(key_code(members[9].0) == 13112100);
    assert(key_code(members[10].0) == 10097095);
    assert(key_code(members[11].0) == 15099114);
    assert(key_code(members[12].0) == 13114115);
    assert(key_code(members[13].0) == 14114110);
    assert(key_code(members[14].0) == 12105095);
    assert(key_code(members[15].0) == 13111116);
    assert(key_code(members[16].0) == 13099100);
    assert(key_code(members[17].0) == 16114110);
    assert(key_code(members[18].0) == 9116110);
    assert(key_code(members[19].0) == 12116099);
    assert(key_code(members[20].0) == 9116116);
    assert(key_code(members[21].0) == 15099115);
    assert(key_code(members[22].0) == 10116105);
    assert(key_code(members[23].0) == 7116109);
}

/// No two members of a span have the same name.
pub proof fn law_span_members_are_distinct(span: SpanRow, i: int, j: int)
    requires
        0 <= i < j < span_members(span).len(),
    ensures
        span_members(span)[i].0 != span_members(span)[j].0,
{
    lemma_key_codes(span);
    assert(key_codes()[i] != key_codes()[j]);
}

/// Every column of a span can be read back from its event, under the name of
/// the member that holds it.
pub proof fn law_span_columns_read_back(
    span: SpanRow,
    attributes: Map<Seq<char>, Seq<char>>,
    events: Seq<Json>,
    i: int,
)
    requires
        0 <= i < span_members(span).len(),
    ensures
        span_event(span, attributes, events).member("span"@) == Some(object(span_members(span))),
        object(span_members(span)).member(span_members(span)[i].0) == Some(
            span_members(span)[i].1,
        ),
{
    let members = span_members(span);
    assert forall|j: int| 0 <= j < i implies (#[trigger] members[j]).0 != members[i].0 by {
        law_span_members_are_distinct(span, j, i);
    }
    lemma_member_at(members, i);
    let outer = seq![
        ("span"@, object(members)),
        ("attributes"@, Json::Object(attributes.map_values(|text: Seq<char>| Json::Text(text)))),
        ("events"@, Json::Array(events)),
    ];
    lemma_member_at(outer, 0);
}

/// The attributes and the events of a span can be read back from its event.
pub proof fn law_attributes_and_events_read_back(
    span: SpanRow,
    attributes: Map<Seq<char>, Seq<char>>,
    events: Seq<Json>,
)
    ensures
        span_event(span, attributes, events).member("events"@) == Some(Json::Array(events)),
        span_event(span, attributes, events).member("attributes"@) is Some,
        forall|key: Seq<char>|
            #![trigger attributes.contains_key(key)]
            span_event(span, attributes, events).member("attributes"@)->0.member(key) == (
            if attributes.contains_key(key) {
                Some(Json::Text(attributes[key]))
            } else {
                None
            }),
{
    let outer = seq![
        ("span"@, object(span_members(span))),
        ("attributes"@, Json::Object(attributes.map_values(|text: Seq<char>| Json::Text(text)))),
        ("events"@, Json::Array(events)),
    ];
    reveal_strlit("span");
    reveal_strlit("attributes");
    reveal_strlit("events");
    assert("span"@.len() == 4 && "attributes"@.len() == 10 && "events"@.len() == 6);
    lemma_member_at(outer, 1);
    lemma_member_at(outer, 2);
}

/// The identifiers and the time that are read from the event of a span are
/// those of the span; an empty identifier of a tool call counts for none.
pub proof fn law_ids_of_a_built_event(
    span: SpanRow,
    attributes: Map<Seq<char>, Seq<char>>,
    events: Seq<Json>,
)
    ensures
        event_ids(span_event(span, attributes, events)) == (
            Some(span.span_id@),
            text_of(span.parent_span_id),
            match span.tool_call_id {
                Some(id) => if id@.len() == 0 {
                    None
                } else {
                    Some(id@)
                },
                None => None,
            },
        ),
        event_seconds(span_event(span, attributes, events)) == Some(
            quotient(span.start_time_ms as int, 1000) % 0x1_0000_0000,
        ),
{
    law_span_columns_read_back(span, attributes, events, 0);
    law_span_columns_read_back(span, attributes, events, 2);
    law_span_columns_read_back(span, attributes, events, 4);
    law_span_columns_read_back(span, attributes, events, 19);
}

/// The rows of a table that ended after `after_ms`, in the order of the table.
pub open spec fn ended_after(table: Seq<SpanRow>, after_ms: int) -> Seq<SpanRow> {
    table.filter(|span: SpanRow| span.end_time_ms > after_ms)
}

/// The rows that the query for the spans gives, of a table in the order of the
/// query: those that ended after `after_ms`, at most `limit` of them; a
/// negative limit is none.
pub open spec fn page(table: Seq<SpanRow>, after_ms: int, limit: int) -> Seq<SpanRow> {
    let rest = ended_after(table, after_ms);
    if limit < 0 || rest.len() <= limit {
        rest
    } else {
        rest.take(limit)
    }
}

/// Whether no row ended before the one in front of it.
pub open spec fn in_order(table: Seq<SpanRow>) -> bool {
    forall|i: int, j: int|
        0 <= i <= j < table.len() ==> (#[trigger] table[i]).end_time_ms <= (
        #[trigger] table[j]).end_time_ms
}

/// Whether the page does not part rows that ended in the same millisecond, and
/// ends at an instant with a calendar date.
pub open spec fn clean_page(table: Seq<SpanRow>, after_ms: int, limit: int) -> bool {
    let rest = ended_after(table, after_ms);
    let taken = page(table, after_ms, limit);
    &&& taken.len() < rest.len() ==> taken.last().end_time_ms < rest[taken.len() as int].end_time_ms
    &&& taken.len() > 0 ==> millis_in_range(taken.last().end_time_ms as int)
}

/// What reads from the first `n` watermarks gave, one after the other.
pub open spec fn read_so_far(
    table: Seq<SpanRow>,
    marks: Seq<TimestampWatermark>,
    limit: int,
    n: nat,
) -> Seq<SpanRow>
    decreases n,
{
    if n == 0 {
        Seq::empty()
    } else {
        read_so_far(table, marks, limit, (n - 1) as nat) + page(
            table,
            marks[n - 1].millis(),
            limit,
        )
    }
}

/// In an ordered table, the rows that ended later than `after_ms` are those
/// from some place on.
proof fn lemma_suffix(table: Seq<SpanRow>, after_ms: int) -> (c: int)
    requires
        in_order(table),
    ensures
        0 <= c <= table.len(),
        ended_after(table, after_ms) == table.skip(c),
        forall|i: int| 0 <= i < c ==> (#[trigger] table[i]).end_time_ms <= after_ms,
        forall|i: int| c <= i < table.len() ==> (#[trigger] table[i]).end_time_ms > after_ms,
    decreases table.len(),
{
    reveal(Seq::filter);
    if table.len() == 0 {
        assert(ended_after(table, after_ms) =~= table.skip(0));
        0
    } else {
        let front = table.drop_last();
        let c = lemma_suffix(front, after_ms);
        if table.last().end_time_ms > after_ms {
            assert(ended_after(table, after_ms) =~= table.skip(c)) by {
                assert(front.skip(c).push(table.last()) =~= table.skip(c));
            }
            assert(forall|i: int| 0 <= i < c ==> table[i] == front[i]);
            assert(forall|i: int| c <= i < front.len() ==> table[i] == front[i]);
            c
        } else {
            assert forall|i: int| 0 <= i < table.len() implies (#[trigger] table[i]).end_time_ms
                <= after_ms by {
                assert(table[i].end_time_ms <= table[table.len() - 1].end_time_ms);
            }
            if c < front.len() {
                assert(front[c] == table[c]);
            }
            assert(ended_after(table, after_ms) =~= table.skip(table.len() as int));
            table.len() as int
        }
    }
}

/// The latest end in an ordered table that is not empty is that of its last
/// row.
proof fn lemma_latest_is_last(spans: Seq<SpanRow>, otherwise: int)
    requires
        in_order(spans),
        spans.len() > 0,
    ensures
        latest_end(spans, otherwise) == spans.last().end_time_ms,
    decreases spans.len(),
{
    if spans.len() > 1 {
        let front = spans.drop_last();
        assert(in_order(front)) by {
            assert forall|i: int, j: int| 0 <= i <= j < front.len() implies (
            #[trigger] front[i]).end_time_ms <= (#[trigger] front[j]).end_time_ms by {
                assert(front[i] == spans[i] && front[j] == spans[j]);
            }
        }
        lemma_latest_is_last(front, otherwise);
        assert(spans[spans.len() - 2].end_time_ms <= spans[spans.len() - 1].end_time_ms);
    }
}

/// A read that gives a clean page leaves a later watermark, and the rows after
/// that watermark are the rows after the old one without those of the page.
pub proof fn law_a_read_hands_on_the_rest(
    table: Seq<SpanRow>,
    before: TimestampWatermark,
    after: TimestampWatermark,
    limit: int,
)
    requires
        in_order(table),
        page(table, before.millis(), limit).len() > 0,
        clean_page(table, before.millis(), limit),
        advanced(before, page(table, before.millis(), limit), after),
    ensures
        after.millis() > before.millis(),
        page(table, before.millis(), limit) + ended_after(table, after.millis()) == ended_after(
            table,
            before.millis(),
        ),
{
    let a = before.millis();
    let c = lemma_suffix(table, a);
    let rest = ended_after(table, a);
    let taken = page(table, a, limit);
    let l = taken.len() as int;
    assert(forall|i: int| 0 <= i < rest.len() ==> rest[i] == table[c + i]);
    assert(forall|i: int| 0 <= i < l ==> taken[i] == table[c + i]);
    assert(in_order(taken)) by {
        assert forall|i: int, j: int| 0 <= i <= j < taken.len() implies (
        #[trigger] taken[i]).end_time_ms <= (#[trigger] taken[j]).end_time_ms by {
            assert(table[c + i].end_time_ms <= table[c + j].end_time_ms);
        }
    }
    lemma_latest_is_last(taken, a);
    let m = after.millis();
    assert(m == table[c + l - 1].end_time_ms);
    let d = lemma_suffix(table, m);
    if d < c + l {
        assert(table[d].end_time_ms <= table[c + l - 1].end_time_ms);
    }
    if d > c + l {
        assert(rest[l] == table[c + l]);
    }
    assert(d == c + l);
    assert(taken + table.skip(d) =~= rest);
}

/// Paging on from each new watermark until a page is empty gives every row that
/// ended after the first watermark, in order, none lost and none repeated; so
/// there are at most as many pages as rows.
pub proof fn law_resumed_pages_lose_and_repeat_nothing(
    table: Seq<SpanRow>,
    marks: Seq<TimestampWatermark>,
    limit: int,
    n: nat,
)
    requires
        in_order(table),
        limit != 0,
        n < marks.len(),
        forall|k: int|
            #![trigger marks[k]]
            0 <= k < n ==> page(table, marks[k].millis(), limit).len() > 0 && clean_page(
                table,
                marks[k].millis(),
                limit,
            ) && advanced(marks[k], page(table, marks[k].millis(), limit), marks[k + 1]),
        page(table, marks[n as int].millis(), limit).len() == 0,
    ensures
        read_so_far(table, marks, limit, n) == ended_after(table, marks[0].millis()),
        n <= ended_after(table, marks[0].millis()).len(),
{
    lemma_reads_hand_on(table, marks, limit, n);
    assert(ended_after(table, marks[n as int].millis()) =~= Seq::empty());
    assert(read_so_far(table, marks, limit, n) + Seq::<SpanRow>::empty() =~= read_so_far(
        table,
        marks,
        limit,
        n,
    ));
}

proof fn lemma_reads_hand_on(
    table: Seq<SpanRow>,
    marks: Seq<TimestampWatermark>,
    limit: int,
    n: nat,
)
    requires
        in_order(table),
        n < marks.len(),
        forall|k: int|
            #![trigger marks[k]]
            0 <= k < n ==> page(table, marks[k].millis(), limit).len() > 0 && clean_page(
                table,
                marks[k].millis(),
                limit,
            ) && advanced(marks[k], page(table, marks[k].millis(), limit), marks[k + 1]),
    ensures
        read_so_far(table, marks, limit, n) + ended_after(table, marks[n as int].millis())
            == ended_after(table, marks[0].millis()),
        n <= read_so_far(table, marks, limit, n).len(),
    decreases n,
{
    if n == 0 {
        assert(Seq::<SpanRow>::empty() + ended_after(table, marks[0].millis()) =~= ended_after(
            table,
            marks[0].millis(),
        ));
    } else {
        let k = n - 1;
        lemma_reads_hand_on(table, marks, limit, k as nat);
        law_a_read_hands_on_the_rest(table, marks[k], marks[k + 1], limit);
        let before = read_so_far(table, marks, limit, k as nat);
        let taken = page(table, marks[k].millis(), limit);
        let rest = ended_after(table, marks[n as int].millis());
        assert((before + taken) + rest =~= before + (taken + rest));
    }
}

/// What a trace database holds: its spans in the order of the query for them,
/// the attributes, and the events of spans in the order of the query for them.
pub struct TraceDatabase {
    pub spans: Seq<SpanRow>,
    pub attributes: Seq<AttributeRow>,
    pub events: Seq<EventRow>,
}

/// The attribute rows of the spans with these identifiers.
pub open spec fn attributes_of(rows: Seq<AttributeRow>, ids: Seq<Seq<char>>) -> Seq<AttributeRow> {
    rows.filter(|row: AttributeRow| ids.contains(row.span_id@))
}

/// The event rows of the spans with these identifiers.
pub open spec fn events_of(rows: Seq<EventRow>, ids: Seq<Seq<char>>) -> Seq<EventRow> {
    rows.filter(|row: EventRow| ids.contains(row.span_id@))
}

/// What a table holds in a row at a column; a floating-point number as its bits.
pub enum Cell {
    Null,
    Integer(int),
    Real(u64),
    Text(Seq<char>),
}

/// The text, or null.
pub open spec fn text_cell(text: Option<String>) -> Cell {
    match text {
        Some(t) => Cell::Text(t@),
        None => Cell::Null,
    }
}

/// The integer, or null.
pub open spec fn integer_cell(n: Option<i64>) -> Cell {
    match n {
        Some(n) => Cell::Integer(n as int),
        None => Cell::Null,
    }
}

/// The floating-point number, or null.
pub open spec fn real_cell(bits: Option<u64>) -> Cell {
    match bits {
        Some(b) => Cell::Real(b),
        None => Cell::Null,
    }
}

/// What the table of spans holds of a span at the column `name`.
pub open spec fn span_cell(span: SpanRow, name: Seq<char>) -> Cell {
    if name == "span_id"@ {
        Cell::Text(span.span_id@)
    } else if name == "trace_id"@ {
        Cell::Text(span.trace_id@)
    } else if name == "parent_span_id"@ {
        text_cell(span.parent_span_id)
    } else if name == "name"@ {
        Cell::Text(span.name@)
    } else if name == "start_time_ms"@ {
        Cell::Integer(span.start_time_ms as int)
    } else if name == "end_time_ms"@ {
        Cell::Integer(span.end_time_ms as int)
    } else if name == "status_code"@ {
        Cell::Integer(span.status_code as int)
    } else if name == "status_message"@ {
        text_cell(span.status_message)
    } else if name == "operation_name"@ {
        text_cell(span.operation_name)
    } else if name == "provider_name"@ {
        text_cell(span.provider_name)
    } else if name == "agent_name"@ {
        text_cell(span.agent_name)
    } else if name == "conversation_id"@ {
        text_cell(span.conversation_id)
    } else if name == "request_model"@ {
        text_cell(span.request_model)
    } else if name == "response_model"@ {
        text_cell(span.response_model)
    } else if name == "input_tokens"@ {
        integer_cell(span.input_tokens)
    } else if name == "output_tokens"@ {
        integer_cell(span.output_tokens)
    } else if name == "cached_tokens"@ {
        integer_cell(span.cached_tokens)
    } else if name == "reasoning_tokens"@ {
        integer_cell(span.reasoning_tokens)
    } else if name == "tool_name"@ {
        text_cell(span.tool_name)
    } else if name == "tool_call_id"@ {
        text_cell(span.tool_call_id)
    } else if name == "tool_type"@ {
        text_cell(span.tool_type)
    } else if name == "chat_session_id"@ {
        text_cell(span.chat_session_id)
    } else if name == "turn_index"@ {
        integer_cell(span.turn_index)
    } else if name == "ttft_ms"@ {
        real_cell(span.ttft_ms)
    } else {
        Cell::Null
    }
}

/// What a row of a result must hold, column by column, to be read as `span`.
pub open spec fn span_cells(span: SpanRow) -> Seq<Cell> {
    seq![
        Cell::Text(span.span_id@),
        Cell::Text(span.trace_id@),
        text_cell(span.parent_span_id),
        Cell::Text(span.name@),
        Cell::Integer(span.start_time_ms as int),
        Cell::Integer(span.end_time_ms as int),
        Cell::Integer(span.status_code as int),
        text_cell(span.status_message),
        text_cell(span.operation_name),
        text_cell(span.provider_name),
        text_cell(span.agent_name),
        text_cell(span.conversation_id),
        text_cell(span.request_model),
        text_cell(span.response_model),
        integer_cell(span.input_tokens),
        integer_cell(span.output_tokens),
        integer_cell(span.cached_tokens),
        integer_cell(span.reasoning_tokens),
        text_cell(span.tool_name),
        text_cell(span.tool_call_id),
        text_cell(span.tool_type),
        text_cell(span.chat_session_id),
        integer_cell(span.turn_index),
        real_cell(span.ttft_ms),
    ]
}

/// What the table of attributes holds of an attribute at the column `name`.
pub open spec fn attribute_cell(row: AttributeRow, name: Seq<char>) -> Cell {
    if name == "span_id"@ {
        Cell::Text(row.span_id@)
    } else if name == "key"@ {
        Cell::Text(row.key@)
    } else if name == "value"@ {
        text_cell(row.value)
    } else {
        Cell::Null
    }
}

/// What a row of a result must hold, column by column, to be read as `row`.
pub open spec fn attribute_cells(row: AttributeRow) -> Seq<Cell> {
    seq![Cell::Text(row.span_id@), Cell::Text(row.key@), text_cell(row.value)]
}

/// What the table of events holds of an event at the column `name`.
pub open spec fn event_cell(row: EventRow, name: Seq<char>) -> Cell {
    if name == "span_id"@ {
        Cell::Text(row.span_id@)
    } else if name == "name"@ {
        Cell::Text(row.name@)
    } else if name == "timestamp_ms"@ {
        Cell::Integer(row.timestamp_ms as int)
    } else if name == "attributes"@ {
        text_cell(row.attributes)
    } else {
        Cell::Null
    }
}

/// What a row of a result must hold, column by column, to be read as `row`.
pub open spec fn event_cells(row: EventRow) -> Seq<Cell> {
    seq![
        Cell::Text(row.span_id@),
        Cell::Text(row.name@),
        Cell::Integer(row.timestamp_ms as int),
        text_cell(row.attributes),
    ]
}

/// Whether `rows` are what is read where the columns of `stored` are selected.
pub open spec fn spans_selected(
    columns: Seq<Seq<char>>,
    stored: Seq<SpanRow>,
    rows: Seq<SpanRow>,
) -> bool {
    &&& rows.len() == stored.len()
    &&& forall|i: int|
        0 <= i < stored.len() ==> span_cells(#[trigger] rows[i]) == columns.map_values(
            |name: Seq<char>| span_cell(stored[i], name),
        )
}

/// Whether `rows` are what is read where the columns of `stored` are selected.
pub open spec fn attributes_selected(
    columns: Seq<Seq<char>>,
    stored: Seq<AttributeRow>,
    rows: Seq<AttributeRow>,
) -> bool {
    &&& rows.len() == stored.len()
    &&& forall|i: int|
        0 <= i < stored.len() ==> attribute_cells(#[trigger] rows[i]) == columns.map_values(
            |name: Seq<char>| attribute_cell(stored[i], name),
        )
}

/// Whether `rows` are what is read where the columns of `stored` are selected.
pub open spec fn events_selected(
    columns: Seq<Seq<char>>,
    stored: Seq<EventRow>,
    rows: Seq<EventRow>,
) -> bool {
    &&& rows.len() == stored.len()
    &&& forall|i: int|
        0 <= i < stored.len() ==> event_cells(#[trigger] rows[i]) == columns.map_values(
            |name: Seq<char>| event_cell(stored[i], name),
        )
}

impl TraceDatabase {
    /// Whether `reply` is what the database answers to `request`: what the query
    /// selects, from the rows that it asks for, column by column. A query fails
    /// only where no rows can be read from what it selects; of queries from other
    /// tables, or with other conditions or another order, nothing is said.
    pub open spec fn answers(self, request: SpanRequest, reply: SpanReply) -> bool {
        match request {
            SpanRequest::OpenDatabase { .. } => reply == SpanReply::Opened(Ok(())),
            SpanRequest::Spans { sql, after_ms, limit } => match read_select(sql@) {
                Some(query) => query.rest
                    == "spans WHERE end_time_ms > ?1 ORDER BY end_time_ms ASC, span_id ASC LIMIT ?2"@
                    ==> {
                    let stored = page(self.spans, after_ms as int, limit as int);
                    match reply {
                        SpanReply::Spans(Ok(rows)) => spans_selected(query.columns, stored, rows@),
                        SpanReply::Spans(Err(_)) => !exists|rows: Seq<SpanRow>| #[trigger]
                            spans_selected(query.columns, stored, rows),
                        _ => false,
                    }
                },
                None => true,
            },
            SpanRequest::Attributes { sql, span_ids: ids } => match read_select(sql@) {
                Some(query) => parameters_between(
                    query.rest,
                    "span_attributes WHERE span_id IN ("@,
                    ")"@,
                ) == Some(ids@.len()) ==> {
                    let stored = attributes_of(self.attributes, texts(ids@));
                    match reply {
                        SpanReply::Attributes(Ok(rows)) => attributes_selected(
                            query.columns,
                            stored,
                            rows@,
                        ),
                        SpanReply::Attributes(Err(_)) => !exists|rows: Seq<AttributeRow>|
                            #[trigger] attributes_selected(query.columns, stored, rows),
                        _ => false,
                    }
                },
                None => true,
            },
            SpanRequest::Events { sql, span_ids: ids } => match read_select(sql@) {
                Some(query) => parameters_between(
                    query.rest,
                    "span_events WHERE span_id IN ("@,
                    ") ORDER BY timestamp_ms ASC"@,
                ) == Some(ids@.len()) ==> {
                    let stored = events_of(self.events, texts(ids@));
                    match reply {
                        SpanReply::Events(Ok(rows)) => events_selected(
                            query.columns,
                            stored,
                            rows@,
                        ),
                        SpanReply::Events(Err(_)) => !exists|rows: Seq<EventRow>| #[trigger]
                            events_selected(query.columns, stored, rows),
                        _ => false,
                    }
                },
                None => true,
            },
        }
    }

    /// The event of a span of the database: the span, with all its attributes
    /// and all its events.
    pub open spec fn event(self, span: SpanRow) -> Json {
        span_event(
            span,
            attributes_at(grouped_attributes(self.attributes), span.span_id@),
            events_at(grouped_events(self.events), span.span_id@),
        )
    }
}

/// Whether the read, where it asks for attributes or events, asks for those of
/// its spans, and has some.
pub open spec fn asks_for_spans(state: SpanRead) -> bool {
    match state {
        SpanRead::Opening { .. } => true,
        SpanRead::ReadingSpans { .. } => true,
        SpanRead::ReadingAttributes { spans, read, .. } => {
            spans@.len() > 0 && read.span_ids() == span_ids(spans@)
        },
        SpanRead::ReadingEvents { spans, read, .. } => {
            spans@.len() > 0 && read.span_ids() == span_ids(spans@)
        },
    }
}

/// No read asks for the attributes or events of no spans: at its start it asks
/// for neither, and it goes on from one state to the next only with spans to
/// ask for.
pub proof fn law_a_read_asks_for_its_spans(
    path: PathBuf,
    watermark: TimestampWatermark,
    batch_size: usize,
    state: SpanRead,
    reply: SpanReply,
    next: SpanRead,
)
    requires
        asks_for_spans(state),
        state.goes_on(reply, SpanReadStep::Ask(next)),
    ensures
        asks_for_spans(SpanRead::Opening { path, watermark, batch_size }),
        asks_for_spans(next),
{
}

/// One answer during a read: where the read stood, what it needed, what was
/// answered and how it went on.
pub struct SpanExchange<'a> {
    pub state: SpanRead,
    pub request: SpanRequest<'a>,
    pub reply: SpanReply,
    pub step: SpanReadStep,
}

/// How the read stands after the first `k` answers.
pub open spec fn step_after(first: SpanReadStep, talk: Seq<SpanExchange>, k: int) -> SpanReadStep {
    if k == 0 {
        first
    } else {
        talk[k - 1].step
    }
}

impl TraceDatabase {
    /// Whether the exchange `k` is one that the database can have with the
    /// read.
    pub open spec fn fits(self, first: SpanReadStep, talk: Seq<SpanExchange>, k: int) -> bool {
        let exchange = talk[k];
        &&& step_after(first, talk, k) == SpanReadStep::Ask(exchange.state)
        &&& exchange.state.needs(exchange.request)
        &&& self.answers(exchange.request, exchange.reply)
        &&& exchange.state.goes_on(exchange.reply, exchange.step)
    }

    /// Whether `talk` is the read that began with `first`, from start to end.
    pub open spec fn completed(self, first: SpanReadStep, talk: Seq<SpanExchange>) -> bool {
        &&& forall|k: int| 0 <= k < talk.len() ==> #[trigger] self.fits(first, talk, k)
        &&& step_after(first, talk, talk.len() as int) is Done
    }
}

proof fn lemma_own_attributes(rows: Seq<AttributeRow>, ids: Seq<Seq<char>>, id: Seq<char>)
    requires
        ids.contains(id),
    ensures
        attributes_at(grouped_attributes(attributes_of(rows, ids)), id) == attributes_at(
            grouped_attributes(rows),
            id,
        ),
    decreases rows.len(),
{
    reveal(Seq::filter);
    if rows.len() > 0 {
        let before = rows.drop_last();
        lemma_own_attributes(before, ids, id);
        let kept = attributes_of(before, ids);
        assert(kept.push(rows.last()).drop_last() =~= kept);
    }
}

proof fn lemma_own_events(rows: Seq<EventRow>, ids: Seq<Seq<char>>, id: Seq<char>)
    requires
        ids.contains(id),
    ensures
        events_at(grouped_events(events_of(rows, ids)), id) == events_at(grouped_events(rows), id),
    decreases rows.len(),
{
    reveal(Seq::filter);
    if rows.len() > 0 {
        let before = rows.drop_last();
        lemma_own_events(before, ids, id);
        let kept = events_of(before, ids);
        assert(kept.push(rows.last()).drop_last() =~= kept);
    }
}

/// The columns that the query for the spans selects, in order, are what a row is
/// read from.
proof fn lemma_span_cells(span: SpanRow, names: Seq<Seq<char>>)
    requires
        names == seq![
            "span_id"@,
            "trace_id"@,
            "parent_span_id"@,
            "name"@,
            "start_time_ms"@,
            "end_time_ms"@,
            "status_code"@,
            "status_message"@,
            "operation_name"@,
            "provider_name"@,
            "agent_name"@,
            "conversation_id"@,
            "request_model"@,
            "response_model"@,
            "input_tokens"@,
            "output_tokens"@,
            "cached_tokens"@,
            "reasoning_tokens"@,
            "tool_name"@,
            "tool_call_id"@,
            "tool_type"@,
            "chat_session_id"@,
            "turn_index"@,
            "ttft_ms"@,
        ],
    ensures
        names.map_values(|name: Seq<char>| span_cell(span, name)) == span_cells(span),
{
    lemma_key_codes(span);
    let members = span_members(span);
    assert(key_code("span_id"@) == key_codes()[0]) by {
        assert(members[0].0 == "span_id"@);
    }
    assert(key_code("trace_id"@) == key_codes()[1]) by {
        assert(members[1].0 == "trace_id"@);
    }
    assert(key_code("parent_span_id"@) == key_codes()[2]) by {
        assert(members[2].0 == "parent_span_id"@);
    }
    assert(key_code("name"@) == key_codes()[3]) by {
        assert(members[3].0 == "name"@);
    }
    assert(key_code("start_time_ms"@) == key_codes()[4]) by {
        assert(members[4].0 == "start_time_ms"@);
    }
    assert(key_code("end_time_ms"@) == key_codes()[5]) by {
        assert(members[5].0 == "end_time_ms"@);
    }
    assert(key_code("status_code"@) == key_codes()[6]) by {
        assert(members[6].0 == "status_code"@);
    }
    assert(key_code("status_message"@) == key_codes()[7]) by {
        assert(members[7].0 == "status_message"@);
    }
    assert(key_code("operation_name"@) == key_codes()[8]) by {
        assert(members[8].0 == "operation_name"@);
    }
    assert(key_code("provider_name"@) == key_codes()[9]) by {
        assert(members[9].0 == "provider_name"@);
    }
    assert(key_code("agent_name"@) == key_codes()[10]) by {
        assert(members[10].0 == "agent_name"@);
    }
    assert(key_code("conversation_id"@) == key_codes()[11]) by {
        assert(members[11].0 == "conversation_id"@);
    }
    assert(key_code("request_model"@) == key_codes()[12]) by {
        assert(members[12].0 == "request_model"@);
    }
    assert(key_code("response_model"@) == key_codes()[13]) by {
        assert(members[13].0 == "response_model"@);
    }
    assert(key_code("input_tokens"@) == key_codes()[14]) by {
        assert(members[14].0 == "input_tokens"@);
    }
    assert(key_code("output_tokens"@) == key_codes()[15]) by {
        assert(members[15].0 == "output_tokens"@);
    }
    assert(key_code("cached_tokens"@) == key_codes()[16]) by {
        assert(members[16].0 == "cached_tokens"@);
    }
    assert(key_code("reasoning_tokens"@) == key_codes()[17]) by {
        assert(members[17].0 == "reasoning_tokens"@);
    }
    assert(key_code("tool_name"@) == key_codes()[18]) by {
        assert(members[18].0 == "tool_name"@);
    }
    assert(key_code("tool_call_id"@) == key_codes()[19]) by {
        assert(members[19].0 == "tool_call_id"@);
    }
    assert(key_code("tool_type"@) == key_codes()[20]) by {
        assert(members[20].0 == "tool_type"@);
    }
    assert(key_code("chat_session_id"@) == key_codes()[21]) by {
        assert(members[21].0 == "chat_session_id"@);
    }
    assert(key_code("turn_index"@) == key_codes()[22]) by {
        assert(members[22].0 == "turn_index"@);
    }
    assert(key_code("ttft_ms"@) == key_codes()[23]) by {
        assert(members[23].0 == "ttft_ms"@);
    }
    assert(span_cell(span, "span_id"@) == Cell::Text(span.span_id@));
    assert(span_cell(span, "trace_id"@) == Cell::Text(span.trace_id@));
    assert(span_cell(span, "parent_span_id"@) == text_cell(span.parent_span_id));
    assert(span_cell(span, "name"@) == Cell::Text(span.name@));
    assert(span_cell(span, "start_time_ms"@) == Cell::Integer(span.start_time_ms as int));
    assert(span_cell(span, "end_time_ms"@) == Cell::Integer(span.end_time_ms as int));
    assert(span_cell(span, "status_code"@) == Cell::Integer(span.status_code as int));
    assert(span_cell(span, "status_message"@) == text_cell(span.status_message));
    assert(span_cell(span, "operation_name"@) == text_cell(span.operation_name));
    assert(span_cell(span, "provider_name"@) == text_cell(span.provider_name));
    assert(span_cell(span, "agent_name"@) == text_cell(span.agent_name));
    assert(span_cell(span, "conversation_id"@) == text_cell(span.conversation_id));
    assert(span_cell(span, "request_model"@) == text_cell(span.request_model));
    assert(span_cell(span, "response_model"@) == text_cell(span.response_model));
    assert(span_cell(span, "input_tokens"@) == integer_cell(span.input_tokens));
    assert(span_cell(span, "output_tokens"@) == integer_cell(span.output_tokens));
    assert(span_cell(span, "cached_tokens"@) == integer_cell(span.cached_tokens));
    assert(span_cell(span, "reasoning_tokens"@) == integer_cell(span.reasoning_tokens));
    assert(span_cell(span, "tool_name"@) == text_cell(span.tool_name));
    assert(span_cell(span, "tool_call_id"@) == text_cell(span.tool_call_id));
    assert(span_cell(span, "tool_type"@) == text_cell(span.tool_type));
    assert(span_cell(span, "chat_session_id"@) == text_cell(span.chat_session_id));
    assert(span_cell(span, "turn_index"@) == integer_cell(span.turn_index));
    assert(span_cell(span, "ttft_ms"@) == real_cell(span.ttft_ms));
    assert(names.map_values(|name: Seq<char>| span_cell(span, name)) =~= span_cells(span));
}

/// Spans of which a row holds the same are the same to a reader.
proof fn lemma_same_span(
    a: SpanRow,
    b: SpanRow,
    attributes: Map<Seq<char>, Seq<char>>,
    events: Seq<Json>,
)
    requires
        span_cells(a) == span_cells(b),
    ensures
        a.span_id@ == b.span_id@,
        a.end_time_ms == b.end_time_ms,
        span_event(a, attributes, events) == span_event(b, attributes, events),
{
    let ours = span_cells(a);
    let theirs = span_cells(b);
    let members = span_members(a);
    let others = span_members(b);
    assert(members[0] == others[0]) by {
        assert(ours[0] == theirs[0]);
    }
    assert(members[1] == others[1]) by {
        assert(ours[1] == theirs[1]);
    }
    assert(members[2] == others[2]) by {
        assert(ours[2] == theirs[2]);
    }
    assert(members[3] == others[3]) by {
        assert(ours[3] == theirs[3]);
    }
    assert(members[4] == others[4]) by {
        assert(ours[4] == theirs[4]);
    }
    assert(members[5] == others[5]) by {
        assert(ours[5] == theirs[5]);
    }
    assert(members[6] == others[6]) by {
        assert(ours[6] == theirs[6]);
    }
    assert(members[7] == others[7]) by {
        assert(ours[7] == theirs[7]);
    }
    assert(members[8] == others[8]) by {
        assert(ours[8] == theirs[8]);
    }
    assert(members[9] == others[9]) by {
        assert(ours[9] == theirs[9]);
    }
    assert(members[10] == others[10]) by {
        assert(ours[10] == theirs[10]);
    }
    assert(members[11] == others[11]) by {
        assert(ours[11] == theirs[11]);
    }
    assert(members[12] == others[12]) by {
        assert(ours[12] == theirs[12]);
    }
    assert(members[13] == others[13]) by {
        assert(ours[13] == theirs[13]);
    }
    assert(members[14] == others[14]) by {
        assert(ours[14] == theirs[14]);
    }
    assert(members[15] == others[15]) by {
        assert(ours[15] == theirs[15]);
    }
    assert(members[16] == others[16]) by {
        assert(ours[16] == theirs[16]);
    }
    assert(members[17] == others[17]) by {
        assert(ours[17] == theirs[17]);
    }
    assert(members[18] == others[18]) by {
        assert(ours[18] == theirs[18]);
    }
    assert(members[19] == others[19]) by {
        assert(ours[19] == theirs[19]);
    }
    assert(members[20] == others[20]) by {
        assert(ours[20] == theirs[20]);
    }
    assert(members[21] == others[21]) by {
        assert(ours[21] == theirs[21]);
    }
    assert(members[22] == others[22]) by {
        assert(ours[22] == theirs[22]);
    }
    assert(members[23] == others[23]) by {
        assert(ours[23] == theirs[23]);
    }
    assert(ours[0] == theirs[0] && ours[5] == theirs[5]);
    assert(members =~= others);
}

proof fn lemma_same_latest_end(a: Seq<SpanRow>, b: Seq<SpanRow>, otherwise: int)
    requires
        a.len() == b.len(),
        forall|i: int| 0 <= i < a.len() ==> (#[trigger] a[i]).end_time_ms == b[i].end_time_ms,
    ensures
        latest_end(a, otherwise) == latest_end(b, otherwise),
    decreases a.len(),
{
    if a.len() > 0 {
        assert(a[a.len() - 1].end_time_ms == b[a.len() - 1].end_time_ms);
        let front = a.drop_last();
        assert forall|i: int| 0 <= i < front.len() implies (#[trigger] front[i]).end_time_ms
            == b.drop_last()[i].end_time_ms by {
            assert(front[i] == a[i]);
        }
        lemma_same_latest_end(front, b.drop_last(), otherwise);
    }
}

proof fn lemma_same_attributes(a: Seq<AttributeRow>, b: Seq<AttributeRow>)
    requires
        a.len() == b.len(),
        forall|i: int|
            0 <= i < a.len() ==> attribute_cells(#[trigger] a[i]) == attribute_cells(b[i]),
    ensures
        grouped_attributes(a) == grouped_attributes(b),
    decreases a.len(),
{
    if a.len() > 0 {
        let front = a.drop_last();
        let last = a.len() - 1;
        assert forall|i: int| 0 <= i < front.len() implies attribute_cells(#[trigger] front[i])
            == attribute_cells(b.drop_last()[i]) by {
            assert(front[i] == a[i]);
        }
        lemma_same_attributes(front, b.drop_last());
        let cells = attribute_cells(a[last]);
        assert(cells == attribute_cells(b[last]));
        assert(cells[0] == Cell::Text(b[last].span_id@));
        assert(cells[1] == Cell::Text(b[last].key@));
        assert(cells[2] == text_cell(b[last].value));
    }
}

proof fn lemma_same_events(a: Seq<EventRow>, b: Seq<EventRow>)
    requires
        a.len() == b.len(),
        forall|i: int| 0 <= i < a.len() ==> event_cells(#[trigger] a[i]) == event_cells(b[i]),
    ensures
        grouped_events(a) == grouped_events(b),
    decreases a.len(),
{
    if a.len() > 0 {
        let front = a.drop_last();
        let last = a.len() - 1;
        assert forall|i: int| 0 <= i < front.len() implies event_cells(#[trigger] front[i])
            == event_cells(b.drop_last()[i]) by {
            assert(front[i] == a[i]);
        }
        lemma_same_events(front, b.drop_last());
        let cells = event_cells(a[last]);
        assert(cells == event_cells(b[last]));
        assert(cells[0] == Cell::Text(b[last].span_id@));
        assert(cells[1] == Cell::Text(b[last].name@));
        assert(cells[2] == Cell::Integer(b[last].timestamp_ms as int));
        assert(cells[3] == text_cell(b[last].attributes));
    }
}

/// The database gives the spans of the page for the query for the spans.
proof fn lemma_spans_answered(
    database: TraceDatabase,
    request: SpanRequest,
    reply: SpanReply,
)
    requires
        database.answers(request, reply),
        request matches SpanRequest::Spans { sql, .. } && sql@ == spans_query(),
    ensures
        reply matches SpanReply::Spans(Ok(rows)) && {
            let stored = page(
                database.spans,
                request->Spans_after_ms as int,
                request->Spans_limit as int,
            );
            &&& rows@.len() == stored.len()
            &&& forall|i: int|
                0 <= i < stored.len() ==> span_cells(#[trigger] rows@[i]) == span_cells(stored[i])
        },
{
    law_the_spans_query_selects_the_columns_in_order();
    let names = read_select(spans_query())->0.columns;
    let stored = page(
        database.spans,
        request->Spans_after_ms as int,
        request->Spans_limit as int,
    );
    assert forall|i: int| 0 <= i < stored.len() implies names.map_values(
        |name: Seq<char>| span_cell(stored[i], name),
    ) == span_cells(#[trigger] stored[i]) by {
        lemma_span_cells(stored[i], names);
    }
    assert(spans_selected(names, stored, stored));
}

/// The database gives the attributes of the spans for the query for them.
proof fn lemma_attributes_answered(
    database: TraceDatabase,
    request: SpanRequest,
    reply: SpanReply,
)
    requires
        database.answers(request, reply),
        request matches SpanRequest::Attributes { sql, span_ids: ids } && ids@.len() > 0 && sql@
            == attributes_query(ids@.len()),
    ensures
        reply matches SpanReply::Attributes(Ok(rows)) && grouped_attributes(rows@)
            == grouped_attributes(
            attributes_of(database.attributes, texts(request->Attributes_span_ids@)),
        ),
{
    let ids = request->Attributes_span_ids@;
    law_the_attributes_query_names_each_span(ids.len());
    let names = read_select(attributes_query(ids.len()))->0.columns;
    let stored = attributes_of(database.attributes, texts(ids));
    assert("span_id"@.len() == 7 && "key"@.len() == 3 && "value"@.len() == 5) by {
        reveal_strlit("span_id");
        reveal_strlit("key");
        reveal_strlit("value");
    }
    assert forall|i: int| 0 <= i < stored.len() implies names.map_values(
        |name: Seq<char>| attribute_cell(stored[i], name),
    ) == attribute_cells(#[trigger] stored[i]) by {
        assert(names.map_values(|name: Seq<char>| attribute_cell(stored[i], name))
            =~= attribute_cells(stored[i]));
    }
    assert(attributes_selected(names, stored, stored));
    lemma_same_attributes(reply->Attributes_0->Ok_0@, stored);
}

/// The database gives the events of the spans for the query for them.
proof fn lemma_events_answered(database: TraceDatabase, request: SpanRequest, reply: SpanReply)
    requires
        database.answers(request, reply),
        request matches SpanRequest::Events { sql, span_ids: ids } && ids@.len() > 0 && sql@
            == events_query(ids@.len()),
    ensures
        reply matches SpanReply::Events(Ok(rows)) && grouped_events(rows@) == grouped_events(
            events_of(database.events, texts(request->Events_span_ids@)),
        ),
{
    let ids = request->Events_span_ids@;
    law_the_events_query_names_each_span(ids.len());
    let names = read_select(events_query(ids.len()))->0.columns;
    let stored = events_of(database.events, texts(ids));
    assert("span_id"@.len() == 7 && "name"@.len() == 4 && "timestamp_ms"@.len() == 12
        && "attributes"@.len() == 10) by {
        reveal_strlit("span_id");
        reveal_strlit("name");
        reveal_strlit("timestamp_ms");
        reveal_strlit("attributes");
    }
    assert forall|i: int| 0 <= i < stored.len() implies names.map_values(
        |name: Seq<char>| event_cell(stored[i], name),
    ) == event_cells(#[trigger] stored[i]) by {
        assert(names.map_values(|name: Seq<char>| event_cell(stored[i], name)) =~= event_cells(
            stored[i],
        ));
    }
    assert(events_selected(names, stored, stored));
    lemma_same_events(reply->Events_0->Ok_0@, stored);
}

/// A read gives the next page of spans after the watermark, in order, each with
/// all its attributes and all its events, and the watermark from which to read
/// on; where there are no more spans, it gives nothing, and the watermark stays.
pub proof fn law_a_read_gives_the_next_page(
    database: TraceDatabase,
    path: PathBuf,
    watermark: TimestampWatermark,
    batch_size: usize,
    talk: Seq<SpanExchange>,
)
    requires
        database.completed(
            SpanReadStep::Ask(SpanRead::Opening { path, watermark, batch_size }),
            talk,
        ),
    ensures
        ({
            let first = SpanReadStep::Ask(SpanRead::Opening { path, watermark, batch_size });
            let spans = page(database.spans, watermark.millis(), wrapped_i64(batch_size as int));
            &&& step_after(first, talk, talk.len() as int) matches SpanReadStep::Done(Ok(batch))
            &&& batch.events@.len() == spans.len()
            &&& forall|i: int|
                0 <= i < spans.len() ==> (#[trigger] batch.events@[i])@ == database.event(spans[i])
            &&& if spans.len() == 0 {
                batch.new_watermark == watermark
            } else {
                advanced(watermark, spans, batch.new_watermark)
            }
        }),
{
    let first = SpanReadStep::Ask(SpanRead::Opening { path, watermark, batch_size });
    let spans = page(database.spans, watermark.millis(), wrapped_i64(batch_size as int));
    let ids = span_ids(spans);
    assert(talk.len() > 0);
    assert(database.fits(first, talk, 0));
    assert(talk.len() > 1);
    assert(database.fits(first, talk, 1));
    lemma_spans_answered(database, talk[1].request, talk[1].reply);
    let rows = talk[1].reply->Spans_0->Ok_0@;
    assert forall|i: int| 0 <= i < spans.len() implies (#[trigger] rows[i]).end_time_ms
        == spans[i].end_time_ms && rows[i].span_id@ == spans[i].span_id@ by {
        lemma_same_span(rows[i], spans[i], Map::empty(), Seq::empty());
    }
    assert(span_ids(rows) =~= ids);
    lemma_same_latest_end(rows, spans, watermark.millis());
    if spans.len() == 0 {
        if talk.len() > 2 {
            assert(database.fits(first, talk, 2));
        }
    } else {
        assert(talk.len() > 2);
        assert(database.fits(first, talk, 2));
        let asked = talk[2].request->Attributes_span_ids@;
        assert(texts(asked).len() == asked.len() && ids.len() == spans.len());
        lemma_attributes_answered(database, talk[2].request, talk[2].reply);
        assert(talk.len() > 3);
        assert(database.fits(first, talk, 3));
        let asked_again = talk[3].request->Events_span_ids@;
        assert(texts(asked_again).len() == asked_again.len());
        lemma_events_answered(database, talk[3].request, talk[3].reply);
        if talk.len() > 4 {
            assert(database.fits(first, talk, 4));
        }
        let batch = talk[3].step->Done_0->Ok_0;
        let attributes = grouped_attributes(attributes_of(database.attributes, ids));
        let events = grouped_events(events_of(database.events, ids));
        assert(batch_events(rows, attributes, events, batch.events@));
        assert forall|i: int| 0 <= i < spans.len() implies (#[trigger] batch.events@[i])@
            == database.event(spans[i]) by {
            let id = spans[i].span_id@;
            assert(ids[i] == id && rows[i].span_id@ == id);
            lemma_own_attributes(database.attributes, ids, id);
            lemma_own_events(database.events, ids, id);
            lemma_same_span(
                rows[i],
                spans[i],
                attributes_at(attributes, id),
                events_at(events, id),
            );
        }
    }
}

/// A read from start to end: from which watermark, what was answered, and the
/// batch that it gave.
pub struct SpanReading<'a> {
    pub watermark: TimestampWatermark,
    pub talk: Seq<SpanExchange<'a>>,
    pub batch: TranscriptBatch,
}

/// The events that the readings gave, one after the other.
pub open spec fn joined_events(readings: Seq<SpanReading>) -> Seq<Json>
    decreases readings.len(),
{
    if readings.len() == 0 {
        Seq::empty()
    } else {
        joined_events(readings.drop_last()) + readings.last().batch.events@.map_values(
            |event: JsonValue| event@,
        )
    }
}

impl TraceDatabase {
    /// Whether the database gives the reading.
    pub open spec fn gives(self, path: PathBuf, batch_size: usize, reading: SpanReading) -> bool {
        let first = SpanReadStep::Ask(
            SpanRead::Opening { path, watermark: reading.watermark, batch_size },
        );
        &&& self.completed(first, reading.talk)
        &&& step_after(first, reading.talk, reading.talk.len() as int) == SpanReadStep::Done(
            Ok(reading.batch),
        )
    }

    /// Whether the database gives the readings, each from the watermark that
    /// the one before it left.
    pub open spec fn resumed(
        self,
        path: PathBuf,
        batch_size: usize,
        readings: Seq<SpanReading>,
    ) -> bool {
        &&& forall|k: int|
            0 <= k < readings.len() ==> self.gives(path, batch_size, #[trigger] readings[k])
        &&& forall|k: int|
            #![trigger readings[k]]
            0 < k < readings.len() ==> readings[k].watermark == readings[k
                - 1].batch.new_watermark
    }

    /// Whether the first `n` readings each gave something, and a clean page.
    pub open spec fn gave_clean_pages(
        self,
        batch_size: usize,
        readings: Seq<SpanReading>,
        n: int,
    ) -> bool {
        forall|k: int|
            #![trigger readings[k]]
            0 <= k < n ==> readings[k].batch.events@.len() > 0 && clean_page(
                self.spans,
                readings[k].watermark.millis(),
                wrapped_i64(batch_size as int),
            )
    }

    /// The events of all spans that ended after `after_ms`.
    pub open spec fn events_after(self, after_ms: int) -> Seq<Json> {
        ended_after(self.spans, after_ms).map_values(|span: SpanRow| self.event(span))
    }
}

spec fn marks_of(readings: Seq<SpanReading>, n: int) -> Seq<TimestampWatermark> {
    Seq::new(
        (n + 1) as nat,
        |k: int|
            if k < readings.len() {
                readings[k].watermark
            } else {
                readings[k - 1].batch.new_watermark
            },
    )
}

/// Readings are pages, and their events those of the pages.
proof fn lemma_readings_are_pages(
    database: TraceDatabase,
    path: PathBuf,
    batch_size: usize,
    readings: Seq<SpanReading>,
    n: int,
)
    requires
        0 <= n <= readings.len(),
        readings.len() > 0,
        database.resumed(path, batch_size, readings),
        database.gave_clean_pages(batch_size, readings, n),
    ensures
        ({
            let limit = wrapped_i64(batch_size as int);
            let marks = marks_of(readings, n);
            &&& forall|k: int|
                #![trigger marks[k]]
                0 <= k < n ==> {
                    let taken = page(database.spans, marks[k].millis(), limit);
                    &&& taken.len() > 0
                    &&& clean_page(database.spans, marks[k].millis(), limit)
                    &&& advanced(marks[k], taken, marks[k + 1])
                }
            &&& joined_events(readings.take(n)) == read_so_far(
                database.spans,
                marks,
                limit,
                n as nat,
            ).map_values(|span: SpanRow| database.event(span))
        }),
    decreases n,
{
    let limit = wrapped_i64(batch_size as int);
    let marks = marks_of(readings, n);
    assert forall|k: int|
        #![trigger marks[k]]
        0 <= k < n implies {
            let taken = page(database.spans, marks[k].millis(), limit);
            &&& taken.len() > 0
            &&& clean_page(database.spans, marks[k].millis(), limit)
            &&& advanced(marks[k], taken, marks[k + 1])
        } by {
        let reading = readings[k];
        assert(database.gives(path, batch_size, reading));
        law_a_read_gives_the_next_page(
            database,
            path,
            reading.watermark,
            batch_size,
            reading.talk,
        );
        assert(marks[k] == reading.watermark);
        if k + 1 < readings.len() {
            assert(readings[k + 1].watermark == reading.batch.new_watermark);
        }
    }
    let event = |span: SpanRow| database.event(span);
    if n == 0 {
        assert(readings.take(0) =~= Seq::empty());
        assert(joined_events(readings.take(n)) =~= read_so_far(
            database.spans,
            marks,
            limit,
            0,
        ).map_values(event));
    } else {
        lemma_readings_are_pages(database, path, batch_size, readings, n - 1);
        lemma_read_so_far(database.spans, marks_of(readings, n - 1), marks, limit, (n - 1) as nat);
        let reading = readings[n - 1];
        assert(database.gives(path, batch_size, reading));
        law_a_read_gives_the_next_page(
            database,
            path,
            reading.watermark,
            batch_size,
            reading.talk,
        );
        assert(readings.take(n).drop_last() =~= readings.take(n - 1));
        assert(readings.take(n).last() == reading);
        let taken = page(database.spans, marks[n - 1].millis(), limit);
        assert(reading.batch.events@.map_values(|event: JsonValue| event@) =~= taken.map_values(
            event,
        ));
        let before = read_so_far(database.spans, marks, limit, (n - 1) as nat);
        assert((before + taken).map_values(event) =~= before.map_values(event) + taken.map_values(
            event,
        ));
    }
}

/// What was read depends on the watermarks that were read from.
proof fn lemma_read_so_far(
    table: Seq<SpanRow>,
    marks: Seq<TimestampWatermark>,
    more: Seq<TimestampWatermark>,
    limit: int,
    n: nat,
)
    requires
        forall|k: int| 0 <= k < n ==> #[trigger] marks[k] == more[k],
    ensures
        read_so_far(table, marks, limit, n) == read_so_far(table, more, limit, n),
    decreases n,
{
    if n > 0 {
        lemma_read_so_far(table, marks, more, limit, (n - 1) as nat);
        assert(marks[n - 1] == more[n - 1]);
    }
}

/// Readings that each give something come to an end: there are at most as many
/// as spans that ended after the first watermark.
pub proof fn law_resumed_reads_end(
    database: TraceDatabase,
    path: PathBuf,
    batch_size: usize,
    readings: Seq<SpanReading>,
)
    requires
        in_order(database.spans),
        readings.len() > 0,
        database.resumed(path, batch_size, readings),
        database.gave_clean_pages(batch_size, readings, readings.len() as int),
    ensures
        readings.len() <= ended_after(database.spans, readings[0].watermark.millis()).len(),
{
    let n = readings.len() as int;
    let limit = wrapped_i64(batch_size as int);
    let marks = marks_of(readings, n);
    lemma_readings_are_pages(database, path, batch_size, readings, n);
    lemma_reads_hand_on(database.spans, marks, limit, n as nat);
}

/// Reading on from each new watermark until a read gives nothing gives the
/// event of every span that ended after the first watermark, in order, none
/// lost and none repeated.
pub proof fn law_resumed_reads_lose_and_repeat_nothing(
    database: TraceDatabase,
    path: PathBuf,
    batch_size: usize,
    readings: Seq<SpanReading>,
)
    requires
        in_order(database.spans),
        batch_size != 0,
        readings.len() > 0,
        database.resumed(path, batch_size, readings),
        database.gave_clean_pages(batch_size, readings, readings.len() - 1),
        readings.last().batch.events@.len() == 0,
    ensures
        joined_events(readings) == database.events_after(readings[0].watermark.millis()),
{
    let n = readings.len() - 1;
    let limit = wrapped_i64(batch_size as int);
    let marks = marks_of(readings, n);
    let last = readings[n];
    lemma_readings_are_pages(database, path, batch_size, readings, n);
    assert(database.gives(path, batch_size, last));
    law_a_read_gives_the_next_page(database, path, last.watermark, batch_size, last.talk);
    law_resumed_pages_lose_and_repeat_nothing(database.spans, marks, limit, n as nat);
    assert(readings.drop_last() =~= readings.take(n));
    assert(joined_events(readings) =~= joined_events(readings.take(n)));
}

proof fn lemma_latest_end(spans: Seq<SpanRow>, otherwise: int, i: int)
    requires
        0 <= i < spans.len(),
    ensures
        spans[i].end_time_ms <= latest_end(spans, otherwise),
        exists|j: int|
            0 <= j < spans.len() && (#[trigger] spans[j]).end_time_ms == latest_end(
                spans,
                otherwise,
            ),
    decreases spans.len(),
{
    if spans.len() == 1 {
        assert(spans[0].end_time_ms == latest_end(spans, otherwise));
    } else {
        let front = spans.drop_last();
        let last = spans.len() - 1;
        lemma_latest_end(front, otherwise, if i < last {
            i
        } else {
            0
        });
        let j = choose|j: int|
            0 <= j < front.len() && (#[trigger] front[j]).end_time_ms == latest_end(
                front,
                otherwise,
            );
        assert(front[j] == spans[j]);
        assert(spans[last] == spans.last());
    }
}

/// After a read the watermark stands at the end of the span that ended last, in
/// whole milliseconds; it stays where it was if that is out of the range of
/// calendar dates, or if no span was read.
pub proof fn law_the_watermark_is_that_of_the_last_end(
    before: TimestampWatermark,
    spans: Seq<SpanRow>,
    after: TimestampWatermark,
    i: int,
)
    requires
        advanced(before, spans, after),
        0 <= i < spans.len(),
        forall|j: int| 0 <= j < spans.len() ==> (#[trigger] spans[j]).end_time_ms
            <= spans[i].end_time_ms,
    ensures
        ({
            let ms = spans[i].end_time_ms as int;
            if -8_334_601_228_800_000 <= ms <= 8_210_266_876_799_999 {
                &&& after@.0 * 1000 <= ms < after@.0 * 1000 + 1000
                &&& after@.1 == (ms - after@.0 * 1000) * 1_000_000
                &&& after.millis() == ms
            } else {
                after == before
            }
        }),
{
    lemma_latest_end(spans, before.millis(), i);
    let j = choose|j: int|
        0 <= j < spans.len() && (#[trigger] spans[j]).end_time_ms == latest_end(
            spans,
            before.millis(),
        );
    assert(spans[j].end_time_ms <= spans[i].end_time_ms);
}

/// What a failed query of the trace database is reported with.
pub open spec fn failed(intro: Seq<char>, failure: QueryFailure) -> TranscriptErrorView {
    TranscriptErrorView::Fatal { message: intro + failure.message@ }
}

/// A read ends with the first failure: with that of opening the database as it
/// is, and otherwise with a message that names the query and how far it came,
/// followed by what the database said. Only a read of the spans that found none,
/// or a read of the events, ends without a failure.
pub proof fn law_a_read_fails_with_the_first_failure(
    state: SpanRead,
    reply: SpanReply,
    step: SpanReadStep,
)
    requires
        asks_for_spans(state),
        state.goes_on(reply, step),
    ensures
        match (state, reply) {
            (SpanRead::Opening { .. }, SpanReply::Opened(Err(e))) => {
                step == SpanReadStep::Done(Err(e))
            },
            (SpanRead::ReadingSpans { .. }, SpanReply::Spans(Err(failure))) => {
                step matches SpanReadStep::Done(Err(e)) && e@ == failed(
                    match failure.stage {
                        QueryStage::Prepare => "Failed to prepare spans query: "@,
                        QueryStage::Run => "Failed to query spans: "@,
                        QueryStage::ReadRow => "Failed to read span row: "@,
                    },
                    failure,
                )
            },
            (SpanRead::ReadingAttributes { .. }, SpanReply::Attributes(Err(failure))) => {
                step matches SpanReadStep::Done(Err(e)) && e@ == failed(
                    match failure.stage {
                        QueryStage::Prepare => "Failed to prepare attributes query: "@,
                        QueryStage::Run => "Failed to query attributes: "@,
                        QueryStage::ReadRow => "Failed to read attribute row: "@,
                    },
                    failure,
                )
            },
            (SpanRead::ReadingEvents { .. }, SpanReply::Events(Err(failure))) => {
                step matches SpanReadStep::Done(Err(e)) && e@ == failed(
                    match failure.stage {
                        QueryStage::Prepare => "Failed to prepare events query: "@,
                        QueryStage::Run => "Failed to query events: "@,
                        QueryStage::ReadRow => "Failed to read event row: "@,
                    },
                    failure,
                )
            },
            _ => true,
        },
        step matches SpanReadStep::Done(Err(_)) ==> {
            ||| reply matches SpanReply::Opened(Err(_))
            ||| reply matches SpanReply::Spans(Err(_))
            ||| reply matches SpanReply::Attributes(Err(_))
            ||| reply matches SpanReply::Events(Err(_))
        },
        step matches SpanReadStep::Done(Ok(_)) ==> {
            ||| state is ReadingSpans && (reply matches SpanReply::Spans(Ok(rows)) && rows@.len()
                == 0)
            ||| state is ReadingEvents && (reply matches SpanReply::Events(Ok(_)))
        },
{
}

/// A read asks to open the database at its path; for the spans that ended after
/// its watermark, as many as the size of its batch says; and then for the
/// attributes and the events of the spans that it got, each named once per span
/// and in the order of the spans.
pub proof fn law_a_read_asks_for_what_it_is_to_read(state: SpanRead, request: SpanRequest)
    requires
        asks_for_spans(state),
        state.needs(request),
    ensures
        match state {
            SpanRead::Opening { path, .. } => {
                request matches SpanRequest::OpenDatabase { path: opened } && *opened == path
            },
            SpanRead::ReadingSpans { watermark, batch_size } => {
                &&& request matches SpanRequest::Spans { after_ms, limit, .. }
                &&& after_ms == watermark.millis()
                &&& batch_size <= i64::MAX ==> limit == batch_size
                &&& batch_size > i64::MAX ==> limit == batch_size - 0x1_0000_0000_0000_0000
            },
            SpanRead::ReadingAttributes { spans, .. } => {
                &&& request matches SpanRequest::Attributes { span_ids: ids, .. }
                &&& ids@.len() == spans@.len()
                &&& forall|i: int|
                    0 <= i < spans@.len() ==> (#[trigger] ids@[i])@ == spans@[i].span_id@
            },
            SpanRead::ReadingEvents { spans, .. } => {
                &&& request matches SpanRequest::Events { span_ids: ids, .. }
                &&& ids@.len() == spans@.len()
                &&& forall|i: int|
                    0 <= i < spans@.len() ==> (#[trigger] ids@[i])@ == spans@[i].span_id@
            },
        },
{
    match state {
        SpanRead::ReadingAttributes { spans, .. } => {
            let ids = request->Attributes_span_ids@;
            assert(texts(ids).len() == ids.len() && span_ids(spans@).len() == spans@.len());
            assert forall|i: int| 0 <= i < spans@.len() implies (#[trigger] ids[i])@
                == spans@[i].span_id@ by {
                assert(texts(ids)[i] == span_ids(spans@)[i]);
            }
        },
        SpanRead::ReadingEvents { spans, .. } => {
            let ids = request->Events_span_ids@;
            assert(texts(ids).len() == ids.len() && span_ids(spans@).len() == spans@.len());
            assert forall|i: int| 0 <= i < spans@.len() implies (#[trigger] ids[i])@
                == spans@[i].span_id@ by {
                assert(texts(ids)[i] == span_ids(spans@)[i]);
            }
        },
        _ => {},
    }
}

/// The spans that a read got, and its watermark, stay as they are until it ends:
/// it then gives an event for each of them. An answer that it did not ask for
/// changes nothing.
pub proof fn law_a_read_keeps_its_spans(state: SpanRead, reply: SpanReply, step: SpanReadStep)
    requires
        asks_for_spans(state),
        state.goes_on(reply, step),
    ensures
        match (state, reply) {
            (SpanRead::Opening { watermark, batch_size, .. }, SpanReply::Opened(Ok(_))) => {
                step == SpanReadStep::Ask(SpanRead::ReadingSpans { watermark, batch_size })
            },
            (SpanRead::ReadingSpans { watermark, .. }, SpanReply::Spans(Ok(rows))) => {
                if rows@.len() == 0 {
                    step matches SpanReadStep::Done(Ok(batch)) && batch.events@.len() == 0
                        && batch.new_watermark == watermark
                } else {
                    &&& step matches SpanReadStep::Ask(
                        SpanRead::ReadingAttributes { watermark: kept, spans, .. },
                    )
                    &&& kept == watermark
                    &&& spans == rows
                }
            },
            (
                SpanRead::ReadingAttributes { watermark, spans, .. },
                SpanReply::Attributes(Ok(_)),
            ) => {
                &&& step matches SpanReadStep::Ask(
                    SpanRead::ReadingEvents { watermark: kept, spans: s, .. },
                )
                &&& kept == watermark
                &&& s == spans
            },
            (SpanRead::ReadingEvents { spans, .. }, SpanReply::Events(Ok(_))) => {
                step matches SpanReadStep::Done(Ok(batch)) && batch.events@.len() == spans@.len()
            },
            (SpanRead::Opening { .. }, SpanReply::Opened(Err(_)))
            | (SpanRead::ReadingSpans { .. }, SpanReply::Spans(Err(_)))
            | (SpanRead::ReadingAttributes { .. }, SpanReply::Attributes(Err(_)))
            | (SpanRead::ReadingEvents { .. }, SpanReply::Events(Err(_))) => step is Done,
            _ => step == SpanReadStep::Ask(state),
        },
{
}

} // verus!
