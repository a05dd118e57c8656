//! Laws of the event of a span: what it shows of the columns of the span, of its
//! attributes and of its events.
use crate::copilot_otel::{
    attribute_table, attributes_at, event_attributes, event_entry, event_ids, event_seconds,
    event_table, events_at, grouped_attributes, grouped_events, span_event, span_members,
    AttributeRow, EventRow, SpanRow,
};
use crate::json::{
    lemma_array_item, lemma_array_len, lemma_member_at, lemma_no_member, object, parsed_json, Json,
    JsonNumber, JsonValue,
};
use crate::span_laws::{law_attributes_and_events_read_back, law_span_columns_read_back};
use crate::text_map::TextMap;
use vstd::prelude::*;

verus! {

/// The text as a value, or null.
pub open spec fn text_or_null(text: Option<String>) -> Json {
    match text {
        Some(t) => Json::Text(t@),
        None => Json::Null,
    }
}

/// The integer as a value.
pub open spec fn number(n: i64) -> Json {
    if n < 0 {
        Json::Number(JsonNumber::NegInt(n))
    } else {
        Json::Number(JsonNumber::PosInt(n as u64))
    }
}

/// The integer as a value, or null.
pub open spec fn number_or_null(n: Option<i64>) -> Json {
    match n {
        Some(n) => number(n),
        None => Json::Null,
    }
}

/// The floating-point number with these bits as a value, or null; infinite
/// numbers and NaN, which have at least the bits of infinity under the sign, are
/// null too.
pub open spec fn float_or_null(bits: Option<u64>) -> Json {
    match bits {
        Some(b) => if b % 0x8000_0000_0000_0000 < 0x7ff0_0000_0000_0000 {
            Json::Number(JsonNumber::Float(b))
        } else {
            Json::Null
        },
        None => Json::Null,
    }
}

/// What the event of a span shows of the column `name`.
pub open spec fn shown(event: Json, name: Seq<char>) -> Option<Json> {
    match event.member("span"@) {
        Some(span) => span.member(name),
        None => None,
    }
}

proof fn lemma_shown(
    span: SpanRow,
    attributes: Map<Seq<char>, Seq<char>>,
    events: Seq<Json>,
    i: int,
)
    requires
        0 <= i < span_members(span).len(),
    ensures
        shown(span_event(span, attributes, events), span_members(span)[i].0) == Some(
            span_members(span)[i].1,
        ),
{
    law_span_columns_read_back(span, attributes, events, i);
}

proof fn lemma_infinite(bits: u64)
    ensures
        (bits / 0x10_0000_0000_0000) % 0x800 == 0x7ff <==> bits % 0x8000_0000_0000_0000
            >= 0x7ff0_0000_0000_0000,
{
    assert((bits / 0x10_0000_0000_0000) % 0x800 == 0x7ff <==> bits % 0x8000_0000_0000_0000
        >= 0x7ff0_0000_0000_0000) by (bit_vector);
}

/// The event of a span shows each column of the span under the name of the
/// column: texts and integers as they are, a floating-point number where it is
/// finite, and null for what is not there.
pub proof fn law_each_column_is_shown_under_its_name(
    span: SpanRow,
    attributes: Map<Seq<char>, Seq<char>>,
    events: Seq<Json>,
)
    ensures
        shown(span_event(span, attributes, events), "span_id"@) == Some(Json::Text(span.span_id@)),
        shown(span_event(span, attributes, events), "trace_id"@) == Some(
            Json::Text(span.trace_id@),
        ),
        shown(span_event(span, attributes, events), "parent_span_id"@) == Some(
            text_or_null(span.parent_span_id),
        ),
        shown(span_event(span, attributes, events), "name"@) == Some(Json::Text(span.name@)),
        shown(span_event(span, attributes, events), "start_time_ms"@) == Some(
            number(span.start_time_ms as i64),
        ),
        shown(span_event(span, attributes, events), "end_time_ms"@) == Some(
            number(span.end_time_ms as i64),
        ),
        shown(span_event(span, attributes, events), "status_code"@) == Some(
            number(span.status_code as i64),
        ),
        shown(span_event(span, attributes, events), "status_message"@) == Some(
            text_or_null(span.status_message),
        ),
        shown(span_event(span, attributes, events), "operation_name"@) == Some(
            text_or_null(span.operation_name),
        ),
        shown(span_event(span, attributes, events), "provider_name"@) == Some(
            text_or_null(span.provider_name),
        ),
        shown(span_event(span, attributes, events), "agent_name"@) == Some(
            text_or_null(span.agent_name),
        ),
        shown(span_event(span, attributes, events), "conversation_id"@) == Some(
            text_or_null(span.conversation_id),
        ),
        shown(span_event(span, attributes, events), "request_model"@) == Some(
            text_or_null(span.request_model),
        ),
        shown(span_event(span, attributes, events), "response_model"@) == Some(
            text_or_null(span.response_model),
        ),
        shown(span_event(span, attributes, events), "input_tokens"@) == Some(
            number_or_null(span.input_tokens),
        ),
        shown(span_event(span, attributes, events), "output_tokens"@) == Some(
            number_or_null(span.output_tokens),
        ),
        shown(span_event(span, attributes, events), "cached_tokens"@) == Some(
            number_or_null(span.cached_tokens),
        ),
        shown(span_event(span, attributes, events), "reasoning_tokens"@) == Some(
            number_or_null(span.reasoning_tokens),
        ),
        shown(span_event(span, attributes, events), "tool_name"@) == Some(
            text_or_null(span.tool_name),
        ),
        shown(span_event(span, attributes, events), "tool_call_id"@) == Some(
            text_or_null(span.tool_call_id),
        ),
        shown(span_event(span, attributes, events), "tool_type"@) == Some(
            text_or_null(span.tool_type),
        ),
        shown(span_event(span, attributes, events), "chat_session_id"@) == Some(
            text_or_null(span.chat_session_id),
        ),
        shown(span_event(span, attributes, events), "turn_index"@) == Some(
            number_or_null(span.turn_index),
        ),
        shown(span_event(span, attributes, events), "ttft_ms"@) == Some(
            float_or_null(span.ttft_ms),
        ),
{
    lemma_shown(span, attributes, events, 0);
    lemma_shown(span, attributes, events, 1);
    lemma_shown(span, attributes, events, 2);
    lemma_shown(span, attributes, events, 3);
    lemma_shown(span, attributes, events, 4);
    lemma_shown(span, attributes, events, 5);
    lemma_shown(span, attributes, events, 6);
    lemma_shown(span, attributes, events, 7);
    lemma_shown(span, attributes, events, 8);
    lemma_shown(span, attributes, events, 9);
    lemma_shown(span, attributes, events, 10);
    lemma_shown(span, attributes, events, 11);
    lemma_shown(span, attributes, events, 12);
    lemma_shown(span, attributes, events, 13);
    lemma_shown(span, attributes, events, 14);
    lemma_shown(span, attributes, events, 15);
    lemma_shown(span, attributes, events, 16);
    lemma_shown(span, attributes, events, 17);
    lemma_shown(span, attributes, events, 18);
    lemma_shown(span, attributes, events, 19);
    lemma_shown(span, attributes, events, 20);
    lemma_shown(span, attributes, events, 21);
    lemma_shown(span, attributes, events, 22);
    lemma_shown(span, attributes, events, 23);
    if let Some(bits) = span.ttft_ms {
        lemma_infinite(bits);
    }
}

/// The event of a span shows nothing but the columns of the span.
pub proof fn law_no_other_column_is_shown(
    span: SpanRow,
    attributes: Map<Seq<char>, Seq<char>>,
    events: Seq<Json>,
    name: Seq<char>,
)
    requires
        name != "span_id"@,
        name != "trace_id"@,
        name != "parent_span_id"@,
        name != "name"@,
        name != "start_time_ms"@,
        name != "end_time_ms"@,
        name != "status_code"@,
        name != "status_message"@,
        name != "operation_name"@,
        name != "provider_name"@,
        name != "agent_name"@,
        name != "conversation_id"@,
        name != "request_model"@,
        name != "response_model"@,
        name != "input_tokens"@,
        name != "output_tokens"@,
        name != "cached_tokens"@,
        name != "reasoning_tokens"@,
        name != "tool_name"@,
        name != "tool_call_id"@,
        name != "tool_type"@,
        name != "chat_session_id"@,
        name != "turn_index"@,
        name != "ttft_ms"@,
    ensures
        shown(span_event(span, attributes, events), name) is None,
{
    let members = span_members(span);
    law_span_columns_read_back(span, attributes, events, 0);
    assert forall|i: int| 0 <= i < members.len() implies (#[trigger] members[i]).0 != name by {
        assert(members[0].0 != name);
        assert(members[1].0 != name);
        assert(members[2].0 != name);
        assert(members[3].0 != name);
        assert(members[4].0 != name);
        assert(members[5].0 != name);
        assert(members[6].0 != name);
        assert(members[7].0 != name);
        assert(members[8].0 != name);
        assert(members[9].0 != name);
        assert(members[10].0 != name);
        assert(members[11].0 != name);
        assert(members[12].0 != name);
        assert(members[13].0 != name);
        assert(members[14].0 != name);
        assert(members[15].0 != name);
        assert(members[16].0 != name);
        assert(members[17].0 != name);
        assert(members[18].0 != name);
        assert(members[19].0 != name);
        assert(members[20].0 != name);
        assert(members[21].0 != name);
        assert(members[22].0 != name);
        assert(members[23].0 != name);
    }
    lemma_no_member(members, name);
}

/// The event of a span is an object with the span, its attributes and its events,
/// and nothing else: each attribute is a text at its key, and the events are an
/// array.
pub proof fn law_an_event_has_its_attributes_and_its_events(
    span: SpanRow,
    attributes: Map<Seq<char>, Seq<char>>,
    events: Seq<Json>,
    key: Seq<char>,
)
    ensures
        span_event(span, attributes, events).member("events"@) == Some(Json::Array(events)),
        span_event(span, attributes, events).member("attributes"@) matches Some(shown) && (
        attributes.contains_key(key) ==> shown.member(key) == Some(Json::Text(attributes[key])))
            && (!attributes.contains_key(key) ==> shown.member(key) is None),
        span_event(span, attributes, events).member(key) is Some <==> key == "span"@ || key
            == "attributes"@ || key == "events"@,
{
    law_attributes_and_events_read_back(span, attributes, events);
    law_span_columns_read_back(span, attributes, events, 0);
    let outer = seq![
        ("span"@, object(span_members(span))),
        ("attributes"@, Json::Object(attributes.map_values(|text: Seq<char>| Json::Text(text)))),
        ("events"@, Json::Array(events)),
    ];
    if key != "span"@ && key != "attributes"@ && key != "events"@ {
        lemma_no_member(outer, key);
    }
}

/// The rows of a table of events that belong to the span.
pub open spec fn own_events(rows: Seq<EventRow>, id: Seq<char>) -> Seq<EventRow> {
    rows.filter(|row: EventRow| row.span_id@ == id)
}

proof fn lemma_entry_members(row: EventRow)
    ensures
        ({
            let entry = event_entry(
                row.name@,
                row.timestamp_ms as int,
                event_attributes(row.attributes),
            );
            &&& entry.member("name"@) == Some(Json::Text(row.name@))
            &&& entry.member("timestamp_ms"@) == Some(number(row.timestamp_ms))
            &&& entry.member("attributes"@) == Some(event_attributes(row.attributes))
            &&& forall|key: Seq<char>|
                #[trigger] entry.member(key) is Some ==> key == "name"@ || key == "timestamp_ms"@
                    || key == "attributes"@
        }),
{
    let members = seq![
        ("name"@, Json::Text(row.name@)),
        ("timestamp_ms"@, number(row.timestamp_ms)),
        ("attributes"@, event_attributes(row.attributes)),
    ];
    reveal_strlit("name");
    reveal_strlit("timestamp_ms");
    reveal_strlit("attributes");
    assert("name"@.len() == 4 && "timestamp_ms"@.len() == 12 && "attributes"@.len() == 10);
    lemma_member_at(members, 0);
    lemma_member_at(members, 1);
    lemma_member_at(members, 2);
    let entry = event_entry(row.name@, row.timestamp_ms as int, event_attributes(row.attributes));
    assert(entry == object(members));
    assert forall|key: Seq<char>| #[trigger] entry.member(key) is Some implies key == "name"@
        || key == "timestamp_ms"@ || key == "attributes"@ by {
        if key != "name"@ && key != "timestamp_ms"@ && key != "attributes"@ {
            lemma_no_member(members, key);
        }
    }
}

proof fn lemma_own_rows(rows: Seq<EventRow>, id: Seq<char>)
    ensures
        events_at(grouped_events(rows), id) == own_events(rows, id).map_values(
            |row: EventRow|
                event_entry(row.name@, row.timestamp_ms as int, event_attributes(row.attributes)),
        ),
        grouped_events(rows).contains_key(id) <==> own_events(rows, id).len() > 0,
    decreases rows.len(),
{
    reveal(Seq::filter);
    let entry = |row: EventRow|
        event_entry(row.name@, row.timestamp_ms as int, event_attributes(row.attributes));
    if rows.len() == 0 {
        assert(events_at(grouped_events(rows), id) =~= own_events(rows, id).map_values(entry));
    } else {
        let before = rows.drop_last();
        let row = rows.last();
        lemma_own_rows(before, id);
        if row.span_id@ == id {
            assert(own_events(before, id).push(row).map_values(entry) =~= own_events(
                before,
                id,
            ).map_values(entry).push(entry(row)));
        }
    }
}

/// The events of a span are one for each of its rows, in the order of the rows:
/// each with the name of its row, with its time, and with the document that its
/// attributes hold, or null where they hold none.
pub proof fn law_every_event_of_a_span_is_kept(rows: Seq<EventRow>, id: Seq<char>)
    ensures
        events_at(grouped_events(rows), id).len() == own_events(rows, id).len(),
        forall|i: int|
            0 <= i < own_events(rows, id).len() ==> {
                let row = own_events(rows, id)[i];
                let entry = #[trigger] events_at(grouped_events(rows), id)[i];
                &&& entry is Object
                &&& entry.member("name"@) == Some(Json::Text(row.name@))
                &&& entry.member("timestamp_ms"@) == Some(number(row.timestamp_ms))
                &&& entry.member("attributes"@) == Some(
                    match row.attributes {
                        Some(text) => match parsed_json(text@) {
                            Some(document) => document,
                            None => Json::Null,
                        },
                        None => Json::Null,
                    },
                )
                &&& forall|key: Seq<char>|
                    #[trigger] entry.member(key) is Some ==> key == "name"@ || key
                        == "timestamp_ms"@ || key == "attributes"@
            },
{
    lemma_own_rows(rows, id);
    assert forall|i: int| 0 <= i < own_events(rows, id).len() implies {
        let row = own_events(rows, id)[i];
        let entry = #[trigger] events_at(grouped_events(rows), id)[i];
        &&& entry is Object
        &&& entry.member("name"@) == Some(Json::Text(row.name@))
        &&& entry.member("timestamp_ms"@) == Some(number(row.timestamp_ms))
        &&& entry.member("attributes"@) == Some(event_attributes(row.attributes))
        &&& forall|key: Seq<char>|
            #[trigger] entry.member(key) is Some ==> key == "name"@ || key == "timestamp_ms"@
                || key == "attributes"@
    } by {
        lemma_entry_members(own_events(rows, id)[i]);
    }
}

/// The events of a span are those of the rows before a place, followed by those
/// of the rows from it on: no row is lost, none takes the place of another, and
/// rows of other spans do not count.
pub proof fn law_events_of_joined_rows(
    first: Seq<EventRow>,
    second: Seq<EventRow>,
    id: Seq<char>,
)
    ensures
        events_at(grouped_events(first + second), id) == events_at(grouped_events(first), id)
            + events_at(grouped_events(second), id),
{
    lemma_own_rows(first, id);
    lemma_own_rows(second, id);
    lemma_own_rows(first + second, id);
    lemma_filter_joined(first, second, id);
    let entry = |row: EventRow|
        event_entry(row.name@, row.timestamp_ms as int, event_attributes(row.attributes));
    assert((own_events(first, id) + own_events(second, id)).map_values(entry) =~= own_events(
        first,
        id,
    ).map_values(entry) + own_events(second, id).map_values(entry));
}

proof fn lemma_filter_joined(first: Seq<EventRow>, second: Seq<EventRow>, id: Seq<char>)
    ensures
        own_events(first + second, id) == own_events(first, id) + own_events(second, id),
    decreases second.len(),
{
    reveal(Seq::filter);
    if second.len() == 0 {
        assert(first + second =~= first);
        assert(own_events(first, id) + own_events(second, id) =~= own_events(first, id));
    } else {
        lemma_filter_joined(first, second.drop_last(), id);
        assert((first + second).drop_last() =~= first + second.drop_last());
        assert(own_events(first + second, id) =~= own_events(first, id) + own_events(second, id));
    }
}

/// Whether the row gives the span a value at `key`.
pub open spec fn gives_value(row: AttributeRow, id: Seq<char>, key: Seq<char>) -> bool {
    row.span_id@ == id && row.key@ == key && row.value is Some
}

/// A span has an attribute exactly where a row gives it a value, and then it has
/// the value of the last such row.
pub proof fn law_every_attribute_of_a_span_is_kept(
    rows: Seq<AttributeRow>,
    id: Seq<char>,
    key: Seq<char>,
)
    ensures
        attributes_at(grouped_attributes(rows), id).contains_key(key) <==> exists|i: int|
            0 <= i < rows.len() && gives_value(#[trigger] rows[i], id, key),
        forall|i: int|
            0 <= i < rows.len() && gives_value(#[trigger] rows[i], id, key) && (forall|j: int|
                i < j < rows.len() ==> !gives_value(#[trigger] rows[j], id, key))
                ==> attributes_at(grouped_attributes(rows), id)[key] == rows[i].value->0@,
    decreases rows.len(),
{
    if rows.len() > 0 {
        let before = rows.drop_last();
        let last = rows.len() - 1;
        law_every_attribute_of_a_span_is_kept(before, id, key);
        let now = attributes_at(grouped_attributes(rows), id);
        let earlier = attributes_at(grouped_attributes(before), id);
        assert(forall|j: int| 0 <= j < before.len() ==> before[j] == rows[j]);
        if gives_value(rows[last], id, key) {
            assert(now.contains_key(key) && now[key] == rows[last].value->0@);
        } else {
            assert(now.contains_key(key) == earlier.contains_key(key));
            assert(now.contains_key(key) ==> now[key] == earlier[key]);
            if exists|i: int| 0 <= i < before.len() && gives_value(#[trigger] before[i], id, key) {
                let i = choose|i: int|
                    0 <= i < before.len() && gives_value(#[trigger] before[i], id, key);
                assert(gives_value(rows[i], id, key));
            }
            assert forall|i: int|
                0 <= i < rows.len() && gives_value(#[trigger] rows[i], id, key) && (forall|j: int|
                    i < j < rows.len() ==> !gives_value(#[trigger] rows[j], id, key))
                implies now[key] == rows[i].value->0@ by {
                assert(before[i] == rows[i]);
                assert forall|j: int| i < j < before.len() implies !gives_value(
                    #[trigger] before[j],
                    id,
                    key,
                ) by {
                    assert(before[j] == rows[j]);
                }
            }
        }
    }
}

/// The tables have an entry for a span exactly where a row of the span is there;
/// among the rows of attributes those without a value do not count.
pub proof fn law_tables_have_the_spans_of_their_rows(
    attributes: Seq<AttributeRow>,
    events: Seq<EventRow>,
    id: Seq<char>,
)
    ensures
        grouped_attributes(attributes).contains_key(id) <==> exists|i: int|
            0 <= i < attributes.len() && (#[trigger] attributes[i]).span_id@ == id
                && attributes[i].value is Some,
        grouped_events(events).contains_key(id) <==> exists|i: int|
            0 <= i < events.len() && (#[trigger] events[i]).span_id@ == id,
    decreases attributes.len() + events.len(),
{
    if attributes.len() > 0 {
        let before = attributes.drop_last();
        let last = attributes.len() - 1;
        law_tables_have_the_spans_of_their_rows(before, events, id);
        assert(forall|i: int| 0 <= i < before.len() ==> before[i] == attributes[i]);
        if grouped_attributes(before).contains_key(id) {
            let i = choose|i: int|
                0 <= i < before.len() && (#[trigger] before[i]).span_id@ == id
                    && before[i].value is Some;
            assert(attributes[i].span_id@ == id && attributes[i].value is Some);
        }
        assert(attributes[last] == attributes.last());
    } else if events.len() > 0 {
        let before = events.drop_last();
        let last = events.len() - 1;
        law_tables_have_the_spans_of_their_rows(attributes, before, id);
        assert(forall|i: int| 0 <= i < before.len() ==> before[i] == events[i]);
        if grouped_events(before).contains_key(id) {
            let i = choose|i: int| 0 <= i < before.len() && (#[trigger] before[i]).span_id@ == id;
            assert(events[i].span_id@ == id);
        }
        assert(events[last] == events.last());
    }
}

/// A table of attributes or events, by span, shows for each span what it holds
/// for it: the same attributes, each with its text, and the same events, in the
/// same order.
pub proof fn law_tables_show_what_they_hold(
    attributes: Map<Seq<char>, TextMap<String>>,
    events: Map<Seq<char>, Vec<JsonValue>>,
    id: Seq<char>,
    key: Seq<char>,
    i: int,
)
    ensures
        attribute_table(attributes).contains_key(id) <==> attributes.contains_key(id),
        attributes.contains_key(id) ==> (attribute_table(attributes)[id].contains_key(key)
            <==> attributes[id]@.contains_key(key)),
        attributes.contains_key(id) && attributes[id]@.contains_key(key) ==> attribute_table(
            attributes,
        )[id][key] == attributes[id]@[key]@,
        event_table(events).contains_key(id) <==> events.contains_key(id),
        events.contains_key(id) ==> event_table(events)[id].len() == events[id]@.len(),
        events.contains_key(id) && 0 <= i < events[id]@.len() ==> event_table(events)[id][i]
            == events[id]@[i]@,
{
    if events.contains_key(id) {
        lemma_array_len(events[id]@);
        if 0 <= i < events[id]@.len() {
            lemma_array_item(events[id]@, i);
        }
    }
}

/// The identifiers of an event are the texts that it shows of its span, of the
/// parent span and of the tool call; what is no text is none, and the tool call's
/// identifier must not be empty.
pub proof fn law_identifiers_are_the_texts_that_are_shown(event: Json)
    ensures
        event_ids(event).0 == (match shown(event, "span_id"@) {
            Some(Json::Text(text)) => Some(text),
            _ => None,
        }),
        event_ids(event).1 == (match shown(event, "parent_span_id"@) {
            Some(Json::Text(text)) => Some(text),
            _ => None,
        }),
        event_ids(event).2 == (match shown(event, "tool_call_id"@) {
            Some(Json::Text(text)) => if text.len() > 0 {
                Some(text)
            } else {
                None
            },
            _ => None,
        }),
{
}

/// The time of an event is the start that it shows, in seconds: a millisecond
/// count `ms` from the epoch on gives `ms / 1000`, one before the epoch the
/// second towards the epoch, both in 32 bits; what is no integer of 64 bits is no
/// time.
pub proof fn law_the_time_is_the_start_that_is_shown(event: Json)
    ensures
        match shown(event, "start_time_ms"@) {
            Some(Json::Number(JsonNumber::PosInt(ms))) => event_seconds(event) == if ms
                < 0x8000_0000_0000_0000 {
                Some((ms / 1000) as int % 0x1_0000_0000)
            } else {
                None
            },
            Some(Json::Number(JsonNumber::NegInt(ms))) if ms < 0 => event_seconds(event) == Some(
                (-((-ms) / 1000)) % 0x1_0000_0000,
            ),
            Some(Json::Number(JsonNumber::NegInt(ms))) => event_seconds(event) == Some(
                (ms as int / 1000) % 0x1_0000_0000,
            ),
            _ => event_seconds(event) is None,
        },
{
}

} // verus!
