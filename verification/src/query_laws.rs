//! How the queries of the trace database are read: which columns they select, in
//! which order, and from what.
use crate::copilot_otel::{
    attribute_columns, attributes_query, column_list, event_columns, events_query, placeholders,
    span_columns, spans_query,
};
use crate::fast_import_reading::after_prefix;
use vstd::prelude::*;

verus! {

/// The pieces of `s` between commas.
pub open spec fn comma_pieces(s: Seq<char>) -> Seq<Seq<char>>
    decreases s.len(),
{
    if s.len() == 0 {
        seq![Seq::empty()]
    } else {
        let before = comma_pieces(s.drop_last());
        if s.last() == ',' {
            before.push(Seq::empty())
        } else {
            before.drop_last().push(before.last().push(s.last()))
        }
    }
}

/// `text` without a space at its beginning.
pub open spec fn without_space(text: Seq<char>) -> Seq<char> {
    if text.len() > 0 && text[0] == ' ' {
        text.skip(1)
    } else {
        text
    }
}

/// What precedes `suffix` in `text`, if `text` ends with it.
pub open spec fn before_suffix(text: Seq<char>, suffix: Seq<char>) -> Option<Seq<char>> {
    if text.len() >= suffix.len() && text.skip(text.len() - suffix.len()) == suffix {
        Some(text.take(text.len() - suffix.len()))
    } else {
        None
    }
}

/// The column that an expression selects: a column taken as an integer is that
/// column.
#[verifier::opaque]
pub open spec fn column_name(expression: Seq<char>) -> Seq<char> {
    match after_prefix(expression, "CAST("@) {
        Some(rest) => match before_suffix(rest, " AS INTEGER)"@) {
            Some(name) => name,
            None => expression,
        },
        None => expression,
    }
}

/// Where `text` goes on with its table.
pub open spec fn from_at(text: Seq<char>) -> nat
    decreases text.len(),
{
    if text.len() == 0 || " FROM "@.is_prefix_of(text) {
        0
    } else {
        1 + from_at(text.drop_first())
    }
}

/// A query: the columns it selects, and what follows, from the name of its table
/// on.
pub struct SelectQuery {
    pub columns: Seq<Seq<char>>,
    pub rest: Seq<char>,
}

/// The query that is written in `sql`.
pub open spec fn read_select(sql: Seq<char>) -> Option<SelectQuery> {
    match after_prefix(sql, "SELECT "@) {
        Some(text) => {
            let n = from_at(text) as int;
            match after_prefix(text.skip(n), " FROM "@) {
                Some(rest) => Some(
                    SelectQuery {
                        columns: comma_pieces(text.take(n)).map_values(
                            |piece: Seq<char>| column_name(without_space(piece)),
                        ),
                        rest,
                    },
                ),
                None => None,
            }
        },
        None => None,
    }
}

/// How many parameters stand in `text`, with commas between them.
pub open spec fn parameters(text: Seq<char>) -> Option<nat>
    decreases text.len(),
{
    if text == "?"@ {
        Some(1)
    } else if text.len() < 2 {
        None
    } else {
        match before_suffix(text, ",?"@) {
            Some(front) => if front.len() < text.len() {
                match parameters(front) {
                    Some(n) => Some(n + 1),
                    None => None,
                }
            } else {
                None
            },
            None => None,
        }
    }
}

/// How many parameters stand in `text` between `prefix` and `suffix`.
pub open spec fn parameters_between(
    text: Seq<char>,
    prefix: Seq<char>,
    suffix: Seq<char>,
) -> Option<nat> {
    match after_prefix(text, prefix) {
        Some(tail) => match before_suffix(tail, suffix) {
            Some(list) => parameters(list),
            None => None,
        },
        None => None,
    }
}

proof fn lemma_after_prefix(prefix: Seq<char>, rest: Seq<char>)
    ensures
        after_prefix(prefix + rest, prefix) == Some(rest),
{
    assert((prefix + rest).skip(prefix.len() as int) =~= rest);
    assert(prefix.is_prefix_of(prefix + rest));
}

proof fn lemma_before_suffix(front: Seq<char>, suffix: Seq<char>)
    ensures
        before_suffix(front + suffix, suffix) == Some(front),
{
    let text = front + suffix;
    assert(text.skip(text.len() - suffix.len()) =~= suffix);
    assert(text.take(text.len() - suffix.len()) =~= front);
}

proof fn lemma_some_piece(s: Seq<char>)
    ensures
        comma_pieces(s).len() > 0,
    decreases s.len(),
{
    if s.len() > 0 {
        lemma_some_piece(s.drop_last());
    }
}

proof fn lemma_last_piece(s: Seq<char>, piece: Seq<char>)
    requires
        !piece.contains(','),
    ensures
        comma_pieces(s + piece) == comma_pieces(s).drop_last().push(comma_pieces(s).last() + piece),
    decreases piece.len(),
{
    lemma_some_piece(s);
    let before = comma_pieces(s);
    if piece.len() == 0 {
        assert(s + piece =~= s);
        assert(before.last() + piece =~= before.last());
        assert(before.drop_last().push(before.last()) =~= before);
    } else {
        let front = piece.drop_last();
        assert(piece.contains(piece[piece.len() - 1]));
        assert(!front.contains(',')) by {
            if front.contains(',') {
                assert(piece[front.index_of(',')] == ',');
            }
        }
        lemma_last_piece(s, front);
        assert((s + piece).drop_last() =~= s + front);
        let middle = before.drop_last().push(before.last() + front);
        assert(middle.drop_last() =~= before.drop_last());
        assert((before.last() + front).push(piece.last()) =~= before.last() + piece);
    }
}

/// Columns that hold no commas and do not begin with spaces can be told apart in
/// their list.
proof fn lemma_columns(columns: Seq<Seq<char>>)
    requires
        columns.len() > 0,
        forall|i: int|
            0 <= i < columns.len() ==> !(#[trigger] columns[i]).contains(',') && columns[i].len()
                > 0 && columns[i][0] != ' ',
    ensures
        comma_pieces(column_list(columns)).map_values(|piece: Seq<char>| without_space(piece))
            == columns,
    decreases columns.len(),
{
    let last = columns[columns.len() - 1];
    let plain = |piece: Seq<char>| without_space(piece);
    if columns.len() == 1 {
        lemma_last_piece(Seq::empty(), last);
        assert(Seq::<char>::empty() + last =~= last);
        assert(comma_pieces(Seq::empty()) =~= seq![Seq::empty()]);
        assert(comma_pieces(last) =~= seq![last]);
        assert(comma_pieces(column_list(columns)).map_values(plain) =~= columns);
    } else {
        let front = columns.drop_last();
        assert forall|i: int| 0 <= i < front.len() implies !(#[trigger] front[i]).contains(',')
            && front[i].len() > 0 && front[i][0] != ' ' by {
            assert(front[i] == columns[i]);
        }
        lemma_columns(front);
        reveal_strlit(", ");
        let list = column_list(front);
        let piece = seq![' '] + last;
        assert(column_list(columns) =~= list.push(',') + piece);
        assert(!piece.contains(',')) by {
            assert forall|i: int| 0 <= i < piece.len() implies piece[i] != ',' by {
                if i > 0 {
                    assert(last.contains(last[i - 1]));
                }
            }
        }
        let before = comma_pieces(list);
        assert(list.push(',').drop_last() =~= list);
        assert(comma_pieces(list.push(',')) =~= before.push(Seq::empty()));
        lemma_last_piece(list.push(','), piece);
        assert(before.push(Seq::empty()).drop_last() =~= before);
        assert(Seq::<char>::empty() + piece =~= piece);
        assert(comma_pieces(column_list(columns)) =~= before.push(piece));
        assert(piece.skip(1) =~= last);
        assert(before.push(piece).map_values(plain) =~= before.map_values(plain).push(last));
        assert(front.push(last) =~= columns);
    }
}

proof fn lemma_from_at(list: Seq<char>, rest: Seq<char>)
    requires
        !list.contains('F'),
    ensures
        from_at(list + (" FROM "@ + rest)) == list.len(),
    decreases list.len(),
{
    reveal_strlit(" FROM ");
    let tail = " FROM "@ + rest;
    let text = list + tail;
    if list.len() == 0 {
        assert(text =~= tail);
        assert(" FROM "@.is_prefix_of(tail));
    } else {
        let less = list.drop_first();
        assert(text.drop_first() =~= less + tail);
        assert(!less.contains('F')) by {
            if less.contains('F') {
                assert(list[less.index_of('F') + 1] == 'F');
            }
        }
        assert(!" FROM "@.is_prefix_of(text)) by {
            if " FROM "@.is_prefix_of(text) {
                assert(text[1] == " FROM "@[1]);
                if list.len() > 1 {
                    assert(list.contains(list[1]));
                } else {
                    assert(text[1] == tail[0]);
                }
            }
        }
        lemma_from_at(less, rest);
    }
}

proof fn lemma_list_without_f(columns: Seq<Seq<char>>)
    requires
        forall|i: int| 0 <= i < columns.len() ==> !(#[trigger] columns[i]).contains('F'),
    ensures
        !column_list(columns).contains('F'),
    decreases columns.len(),
{
    reveal_strlit(", ");
    let list = column_list(columns);
    if columns.len() > 0 {
        let last = columns[columns.len() - 1];
        assert(!last.contains('F'));
        if columns.len() > 1 {
            let front = columns.drop_last();
            assert forall|i: int| 0 <= i < front.len() implies !(#[trigger] front[i]).contains(
                'F',
            ) by {
                assert(front[i] == columns[i]);
            }
            lemma_list_without_f(front);
            let head = column_list(front);
            assert forall|i: int| 0 <= i < list.len() implies list[i] != 'F' by {
                if i < head.len() {
                    assert(head.contains(head[i]));
                } else if i >= head.len() + 2 {
                    assert(last.contains(last[i - head.len() - 2]));
                }
            }
        }
    }
}

/// A text that can stand in a list of columns.
spec fn is_column(text: Seq<char>) -> bool {
    &&& text.len() > 0
    &&& text[0] != ' '
    &&& forall|i: int| 0 <= i < text.len() ==> #[trigger] text[i] != ',' && text[i] != 'F'
}

/// A query reads as its columns and what follows its table.
proof fn lemma_select(columns: Seq<Seq<char>>, rest: Seq<char>)
    requires
        columns.len() > 0,
        forall|i: int| 0 <= i < columns.len() ==> is_column(#[trigger] columns[i]),
    ensures
        read_select("SELECT "@ + column_list(columns) + (" FROM "@ + rest)) == Some(
            SelectQuery {
                columns: columns.map_values(|column: Seq<char>| column_name(column)),
                rest,
            },
        ),
{
    let list = column_list(columns);
    let text = list + (" FROM "@ + rest);
    assert("SELECT "@ + list + (" FROM "@ + rest) =~= "SELECT "@ + text);
    lemma_after_prefix("SELECT "@, text);
    assert forall|i: int| 0 <= i < columns.len() implies !(#[trigger] columns[i]).contains(
        'F',
    ) by {
        assert(is_column(columns[i]));
    }
    lemma_list_without_f(columns);
    lemma_from_at(list, rest);
    assert(text.take(list.len() as int) =~= list);
    assert(text.skip(list.len() as int) =~= " FROM "@ + rest);
    lemma_after_prefix(" FROM "@, rest);
    assert forall|i: int| 0 <= i < columns.len() implies !(#[trigger] columns[i]).contains(',')
        && columns[i].len() > 0 && columns[i][0] != ' ' by {
        assert(is_column(columns[i]));
    }
    lemma_columns(columns);
    let pieces = comma_pieces(list);
    let plain = |piece: Seq<char>| without_space(piece);
    let name = |column: Seq<char>| column_name(column);
    assert(pieces.map_values(plain) == columns);
    assert(pieces.map_values(|piece: Seq<char>| column_name(without_space(piece)))
        =~= columns.map_values(name)) by {
        assert forall|i: int| 0 <= i < pieces.len() implies column_name(
            without_space(#[trigger] pieces[i]),
        ) == column_name(columns[i]) by {
            assert(pieces.map_values(plain)[i] == without_space(pieces[i]));
        }
    }
}

proof fn lemma_plain_column(name: Seq<char>)
    requires
        name.len() > 0,
        name[0] != 'C',
    ensures
        column_name(name) == name,
{
    reveal(column_name);
    reveal_strlit("CAST(");
    assert(!"CAST("@.is_prefix_of(name)) by {
        if "CAST("@.is_prefix_of(name) {
            assert(name[0] == "CAST("@[0]);
        }
    }
}

proof fn lemma_cast_column(name: Seq<char>)
    ensures
        column_name("CAST("@ + name + " AS INTEGER)"@) == name,
{
    reveal(column_name);
    let tail = name + " AS INTEGER)"@;
    assert("CAST("@ + name + " AS INTEGER)"@ =~= "CAST("@ + tail);
    lemma_after_prefix("CAST("@, tail);
    lemma_before_suffix(name, " AS INTEGER)"@);
}

proof fn lemma_column_span_id()
    ensures
        is_column("span_id"@),
        column_name("span_id"@) == "span_id"@,
{
    reveal_strlit("span_id");
    lemma_plain_column("span_id"@);
}

proof fn lemma_column_trace_id()
    ensures
        is_column("trace_id"@),
        column_name("trace_id"@) == "trace_id"@,
{
    reveal_strlit("trace_id");
    lemma_plain_column("trace_id"@);
}

proof fn lemma_column_parent_span_id()
    ensures
        is_column("parent_span_id"@),
        column_name("parent_span_id"@) == "parent_span_id"@,
{
    reveal_strlit("parent_span_id");
    lemma_plain_column("parent_span_id"@);
}

proof fn lemma_column_name()
    ensures
        is_column("name"@),
        column_name("name"@) == "name"@,
{
    reveal_strlit("name");
    lemma_plain_column("name"@);
}

proof fn lemma_column_start_time_ms()
    ensures
        is_column("CAST(start_time_ms AS INTEGER)"@),
        column_name("CAST(start_time_ms AS INTEGER)"@) == "start_time_ms"@,
{
    reveal_strlit("CAST(start_time_ms AS INTEGER)");
    reveal_strlit("CAST(");
    reveal_strlit("start_time_ms");
    reveal_strlit(" AS INTEGER)");
    assert("CAST(start_time_ms AS INTEGER)"@ =~= "CAST("@ + "start_time_ms"@ + " AS INTEGER)"@);
    lemma_cast_column("start_time_ms"@);
}

proof fn lemma_column_end_time_ms()
    ensures
        is_column("CAST(end_time_ms AS INTEGER)"@),
        column_name("CAST(end_time_ms AS INTEGER)"@) == "end_time_ms"@,
{
    reveal_strlit("CAST(end_time_ms AS INTEGER)");
    reveal_strlit("CAST(");
    reveal_strlit("end_time_ms");
    reveal_strlit(" AS INTEGER)");
    assert("CAST(end_time_ms AS INTEGER)"@ =~= "CAST("@ + "end_time_ms"@ + " AS INTEGER)"@);
    lemma_cast_column("end_time_ms"@);
}

proof fn lemma_column_status_code()
    ensures
        is_column("status_code"@),
        column_name("status_code"@) == "status_code"@,
{
    reveal_strlit("status_code");
    lemma_plain_column("status_code"@);
}

proof fn lemma_column_status_message()
    ensures
        is_column("status_message"@),
        column_name("status_message"@) == "status_message"@,
{
    reveal_strlit("status_message");
    lemma_plain_column("status_message"@);
}

proof fn lemma_column_operation_name()
    ensures
        is_column("operation_name"@),
        column_name("operation_name"@) == "operation_name"@,
{
    reveal_strlit("operation_name");
    lemma_plain_column("operation_name"@);
}

proof fn lemma_column_provider_name()
    ensures
        is_column("provider_name"@),
        column_name("provider_name"@) == "provider_name"@,
{
    reveal_strlit("provider_name");
    lemma_plain_column("provider_name"@);
}

proof fn lemma_column_agent_name()
    ensures
        is_column("agent_name"@),
        column_name("agent_name"@) == "agent_name"@,
{
    reveal_strlit("agent_name");
    lemma_plain_column("agent_name"@);
}

proof fn lemma_column_conversation_id()
    ensures
        is_column("conversation_id"@),
        column_name("conversation_id"@) == "conversation_id"@,
{
    reveal_strlit("conversation_id");
    lemma_plain_column("conversation_id"@);
}

proof fn lemma_column_request_model()
    ensures
        is_column("request_model"@),
        column_name("request_model"@) == "request_model"@,
{
    reveal_strlit("request_model");
    lemma_plain_column("request_model"@);
}

proof fn lemma_column_response_model()
    ensures
        is_column("response_model"@),
        column_name("response_model"@) == "response_model"@,
{
    reveal_strlit("response_model");
    lemma_plain_column("response_model"@);
}

proof fn lemma_column_input_tokens()
    ensures
        is_column("input_tokens"@),
        column_name("input_tokens"@) == "input_tokens"@,
{
    reveal_strlit("input_tokens");
    lemma_plain_column("input_tokens"@);
}

proof fn lemma_column_output_tokens()
    ensures
        is_column("output_tokens"@),
        column_name("output_tokens"@) == "output_tokens"@,
{
    reveal_strlit("output_tokens");
    lemma_plain_column("output_tokens"@);
}

proof fn lemma_column_cached_tokens()
    ensures
        is_column("cached_tokens"@),
        column_name("cached_tokens"@) == "cached_tokens"@,
{
    reveal_strlit("cached_tokens");
    lemma_plain_column("cached_tokens"@);
}

proof fn lemma_column_reasoning_tokens()
    ensures
        is_column("reasoning_tokens"@),
        column_name("reasoning_tokens"@) == "reasoning_tokens"@,
{
    reveal_strlit("reasoning_tokens");
    lemma_plain_column("reasoning_tokens"@);
}

proof fn lemma_column_tool_name()
    ensures
        is_column("tool_name"@),
        column_name("tool_name"@) == "tool_name"@,
{
    reveal_strlit("tool_name");
    lemma_plain_column("tool_name"@);
}

proof fn lemma_column_tool_call_id()
    ensures
        is_column("tool_call_id"@),
        column_name("tool_call_id"@) == "tool_call_id"@,
{
    reveal_strlit("tool_call_id");
    lemma_plain_column("tool_call_id"@);
}

proof fn lemma_column_tool_type()
    ensures
        is_column("tool_type"@),
        column_name("tool_type"@) == "tool_type"@,
{
    reveal_strlit("tool_type");
    lemma_plain_column("tool_type"@);
}

proof fn lemma_column_chat_session_id()
    ensures
        is_column("chat_session_id"@),
        column_name("chat_session_id"@) == "chat_session_id"@,
{
    reveal_strlit("chat_session_id");
    lemma_plain_column("chat_session_id"@);
}

proof fn lemma_column_turn_index()
    ensures
        is_column("turn_index"@),
        column_name("turn_index"@) == "turn_index"@,
{
    reveal_strlit("turn_index");
    lemma_plain_column("turn_index"@);
}

proof fn lemma_column_ttft_ms()
    ensures
        is_column("ttft_ms"@),
        column_name("ttft_ms"@) == "ttft_ms"@,
{
    reveal_strlit("ttft_ms");
    lemma_plain_column("ttft_ms"@);
}

proof fn lemma_column_key()
    ensures
        is_column("key"@),
        column_name("key"@) == "key"@,
{
    reveal_strlit("key");
    lemma_plain_column("key"@);
}

proof fn lemma_column_value()
    ensures
        is_column("value"@),
        column_name("value"@) == "value"@,
{
    reveal_strlit("value");
    lemma_plain_column("value"@);
}

proof fn lemma_column_timestamp_ms()
    ensures
        is_column("CAST(timestamp_ms AS INTEGER)"@),
        column_name("CAST(timestamp_ms AS INTEGER)"@) == "timestamp_ms"@,
{
    reveal_strlit("CAST(timestamp_ms AS INTEGER)");
    reveal_strlit("CAST(");
    reveal_strlit("timestamp_ms");
    reveal_strlit(" AS INTEGER)");
    assert("CAST(timestamp_ms AS INTEGER)"@ =~= "CAST("@ + "timestamp_ms"@ + " AS INTEGER)"@);
    lemma_cast_column("timestamp_ms"@);
}

proof fn lemma_column_attributes()
    ensures
        is_column("attributes"@),
        column_name("attributes"@) == "attributes"@,
{
    reveal_strlit("attributes");
    lemma_plain_column("attributes"@);
}

proof fn lemma_from_spans()
    ensures
        " FROM spans WHERE end_time_ms > ?1 ORDER BY end_time_ms ASC, span_id ASC LIMIT ?2"@
            == " FROM "@
            + "spans WHERE end_time_ms > ?1 ORDER BY end_time_ms ASC, span_id ASC LIMIT ?2"@,
{
    reveal_strlit(" FROM ");
    reveal_strlit("spans WHERE end_time_ms > ?1 ORDER BY end_time_ms ASC, span_id ASC LIMIT ?2");
    reveal_strlit(
        " FROM spans WHERE end_time_ms > ?1 ORDER BY end_time_ms ASC, span_id ASC LIMIT ?2",
    );
    assert(" FROM spans WHERE end_time_ms > ?1 ORDER BY end_time_ms ASC, span_id ASC LIMIT ?2"@
        =~= " FROM "@
        + "spans WHERE end_time_ms > ?1 ORDER BY end_time_ms ASC, span_id ASC LIMIT ?2"@);
}

proof fn lemma_from_attributes()
    ensures
        " FROM span_attributes WHERE span_id IN ("@
            == " FROM "@ + "span_attributes WHERE span_id IN ("@,
{
    reveal_strlit(" FROM ");
    reveal_strlit("span_attributes WHERE span_id IN (");
    reveal_strlit(" FROM span_attributes WHERE span_id IN (");
    assert(" FROM span_attributes WHERE span_id IN ("@
        =~= " FROM "@ + "span_attributes WHERE span_id IN ("@);
}

proof fn lemma_from_events()
    ensures
        " FROM span_events WHERE span_id IN ("@ == " FROM "@ + "span_events WHERE span_id IN ("@,
{
    reveal_strlit(" FROM ");
    reveal_strlit("span_events WHERE span_id IN (");
    reveal_strlit(" FROM span_events WHERE span_id IN (");
    assert(" FROM span_events WHERE span_id IN ("@
        =~= " FROM "@ + "span_events WHERE span_id IN ("@);
}

/// The query for the spans selects the columns of a row of spans, by name and in
/// the order in which a row is read, those of times as integers; from the spans
/// that ended after its first parameter, in the order of their ends and then of
/// their identifiers, at most as many as its second parameter.
pub proof fn law_the_spans_query_selects_the_columns_in_order()
    ensures
        read_select(spans_query()) == Some(
            SelectQuery {
                columns: seq![
                    "span_id"@,
                    "trace_id"@,
                    "parent_span_id"@,
                    "name"@,
                    "start_time_ms"@,
                    "end_time_ms"@,
                    "status_code"@,
                    "status_message"@,
                    "operation_name"@,
                    "provider_name"@,
                    "agent_name"@,
                    "conversation_id"@,
                    "request_model"@,
                    "response_model"@,
                    "input_tokens"@,
                    "output_tokens"@,
                    "cached_tokens"@,
                    "reasoning_tokens"@,
                    "tool_name"@,
                    "tool_call_id"@,
                    "tool_type"@,
                    "chat_session_id"@,
                    "turn_index"@,
                    "ttft_ms"@,
                ],
                rest:
                    "spans WHERE end_time_ms > ?1 ORDER BY end_time_ms ASC, span_id ASC LIMIT ?2"@,
            },
        ),
{
    lemma_column_span_id();
    lemma_column_trace_id();
    lemma_column_parent_span_id();
    lemma_column_name();
    lemma_column_start_time_ms();
    lemma_column_end_time_ms();
    lemma_column_status_code();
    lemma_column_status_message();
    lemma_column_operation_name();
    lemma_column_provider_name();
    lemma_column_agent_name();
    lemma_column_conversation_id();
    lemma_column_request_model();
    lemma_column_response_model();
    lemma_column_input_tokens();
    lemma_column_output_tokens();
    lemma_column_cached_tokens();
    lemma_column_reasoning_tokens();
    lemma_column_tool_name();
    lemma_column_tool_call_id();
    lemma_column_tool_type();
    lemma_column_chat_session_id();
    lemma_column_turn_index();
    lemma_column_ttft_ms();
    let columns = span_columns();
    let rest = "spans WHERE end_time_ms > ?1 ORDER BY end_time_ms ASC, span_id ASC LIMIT ?2"@;
    lemma_from_spans();
    assert(spans_query() =~= "SELECT "@ + column_list(columns) + (" FROM "@ + rest));
    assert forall|i: int| 0 <= i < columns.len() implies is_column(#[trigger] columns[i]) by {
        assert(is_column(columns[0]));
        assert(is_column(columns[1]));
        assert(is_column(columns[2]));
        assert(is_column(columns[3]));
        assert(is_column(columns[4]));
        assert(is_column(columns[5]));
        assert(is_column(columns[6]));
        assert(is_column(columns[7]));
        assert(is_column(columns[8]));
        assert(is_column(columns[9]));
        assert(is_column(columns[10]));
        assert(is_column(columns[11]));
        assert(is_column(columns[12]));
        assert(is_column(columns[13]));
        assert(is_column(columns[14]));
        assert(is_column(columns[15]));
        assert(is_column(columns[16]));
        assert(is_column(columns[17]));
        assert(is_column(columns[18]));
        assert(is_column(columns[19]));
        assert(is_column(columns[20]));
        assert(is_column(columns[21]));
        assert(is_column(columns[22]));
        assert(is_column(columns[23]));
    }
    lemma_select(columns, rest);
    assert(columns.map_values(|column: Seq<char>| column_name(column)) =~= seq![
        "span_id"@,
        "trace_id"@,
        "parent_span_id"@,
        "name"@,
        "start_time_ms"@,
        "end_time_ms"@,
        "status_code"@,
        "status_message"@,
        "operation_name"@,
        "provider_name"@,
        "agent_name"@,
        "conversation_id"@,
        "request_model"@,
        "response_model"@,
        "input_tokens"@,
        "output_tokens"@,
        "cached_tokens"@,
        "reasoning_tokens"@,
        "tool_name"@,
        "tool_call_id"@,
        "tool_type"@,
        "chat_session_id"@,
        "turn_index"@,
        "ttft_ms"@,
    ]);
}

proof fn lemma_parameters(n: nat)
    requires
        n > 0,
    ensures
        parameters(placeholders(n)) == Some(n),
        placeholders(n).len() > 0,
        n > 1 ==> placeholders(n).len() > 1,
    decreases n,
{
    reveal_strlit("?");
    reveal_strlit(",?");
    if n > 1 {
        let front = placeholders((n - 1) as nat);
        lemma_parameters((n - 1) as nat);
        lemma_before_suffix(front, ",?"@);
        assert(placeholders(n).len() == front.len() + 2);
    }
}

proof fn lemma_parameters_between(n: nat, prefix: Seq<char>, suffix: Seq<char>)
    requires
        n > 0,
    ensures
        parameters_between(prefix + placeholders(n) + suffix, prefix, suffix) == Some(n),
{
    let list = placeholders(n);
    assert(prefix + list + suffix =~= prefix + (list + suffix));
    lemma_after_prefix(prefix, list + suffix);
    lemma_before_suffix(list, suffix);
    lemma_parameters(n);
}

/// The query for the attributes of `n` spans selects the span, the key and the
/// value of each attribute of the spans that its `n` parameters name.
pub proof fn law_the_attributes_query_names_each_span(n: nat)
    requires
        n > 0,
    ensures
        read_select(attributes_query(n)) matches Some(query) && query.columns == seq![
            "span_id"@,
            "key"@,
            "value"@,
        ] && parameters_between(
            query.rest,
            "span_attributes WHERE span_id IN ("@,
            ")"@,
        ) == Some(n),
{
    lemma_column_span_id();
    lemma_column_key();
    lemma_column_value();
    let columns = attribute_columns();
    let prefix = "span_attributes WHERE span_id IN ("@;
    let rest = prefix + placeholders(n) + ")"@;
    lemma_from_attributes();
    let head = "SELECT "@ + column_list(columns);
    assert(attributes_query(n) =~= head + (" FROM "@ + rest));
    assert forall|i: int| 0 <= i < columns.len() implies is_column(#[trigger] columns[i]) by {
        assert(is_column(columns[0]) && is_column(columns[1]) && is_column(columns[2]));
    }
    lemma_select(columns, rest);
    assert(columns.map_values(|column: Seq<char>| column_name(column)) =~= seq![
        "span_id"@,
        "key"@,
        "value"@,
    ]);
    lemma_parameters_between(n, prefix, ")"@);
}

/// The query for the events of `n` spans selects the span, the name, the time, as
/// an integer, and the attributes of each event of the spans that its `n`
/// parameters name, the earliest first.
pub proof fn law_the_events_query_names_each_span(n: nat)
    requires
        n > 0,
    ensures
        read_select(events_query(n)) matches Some(query) && query.columns == seq![
            "span_id"@,
            "name"@,
            "timestamp_ms"@,
            "attributes"@,
        ] && parameters_between(
            query.rest,
            "span_events WHERE span_id IN ("@,
            ") ORDER BY timestamp_ms ASC"@,
        ) == Some(n),
{
    lemma_column_span_id();
    lemma_column_name();
    lemma_column_timestamp_ms();
    lemma_column_attributes();
    let columns = event_columns();
    let prefix = "span_events WHERE span_id IN ("@;
    let suffix = ") ORDER BY timestamp_ms ASC"@;
    let rest = prefix + placeholders(n) + suffix;
    lemma_from_events();
    let head = "SELECT "@ + column_list(columns);
    assert(events_query(n) =~= head + (" FROM "@ + rest));
    assert forall|i: int| 0 <= i < columns.len() implies is_column(#[trigger] columns[i]) by {
        assert(is_column(columns[0]) && is_column(columns[1]) && is_column(columns[2])
            && is_column(columns[3]));
    }
    lemma_select(columns, rest);
    assert(columns.map_values(|column: Seq<char>| column_name(column)) =~= seq![
        "span_id"@,
        "name"@,
        "timestamp_ms"@,
        "attributes"@,
    ]);
    lemma_parameters_between(n, prefix, suffix);
}

} // verus!
