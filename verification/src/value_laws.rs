//! Laws of numbers, texts, instants and JSON values.
use crate::json::{
    integer, lemma_array_item, lemma_array_len, lemma_member_at, lemma_no_member,
    lemma_object_members, member_pairs, optional_float, optional_integer, optional_text, Json,
    JsonNumber, JsonValue,
};
use crate::numbers::{quotient, wrapped_i64};
use crate::text::{
    decimal, digit, is_white_space, line_pieces, non_blank_lines, text_of, texts, trimmed,
    trimmed_end, trimmed_start,
};
use crate::text_map::{entry_keys, entry_map, lemma_entry, text_values, with_entries};
use crate::transcript::{
    instant_millis, is_instant, millis_in_range, TranscriptError, TranscriptErrorView, Wait,
};
use vstd::prelude::*;

verus! {

/// Wrapping gives the one number that 64 bits with a sign can hold and that is
/// the same modulo two to the power of 64; so it keeps all numbers that they can
/// hold, and tells any two numbers of 64 bits apart.
pub proof fn law_wrapping_keeps_the_bits(n: u64, m: u64)
    ensures
        i64::MIN <= wrapped_i64(n as int) <= i64::MAX,
        (n - wrapped_i64(n as int)) % 0x1_0000_0000_0000_0000 == 0,
        n <= i64::MAX ==> wrapped_i64(n as int) == n,
        wrapped_i64(n as int) == wrapped_i64(m as int) ==> n == m,
{
}

/// A quotient, times the divisor, is the number without its remainder; the
/// remainder has the sign of the number and is smaller than the divisor.
pub proof fn law_quotient_rounds_towards_zero(n: int, d: int)
    requires
        d > 0,
    ensures
        n >= 0 ==> 0 <= n - quotient(n, d) * d < d,
        n <= 0 ==> -d < n - quotient(n, d) * d <= 0,
{
    let q = quotient(n, d);
    if n >= 0 {
        assert(0 <= n - (n / d) * d < d) by (nonlinear_arith)
            requires
                d > 0,
                n >= 0,
        ;
    } else {
        let m = -n;
        let p = m / d;
        assert(0 <= m - p * d < d) by (nonlinear_arith)
            requires
                d > 0,
                m >= 0,
                p == m / d,
        ;
        assert(q == -p);
        assert(q * d == -(p * d)) by (nonlinear_arith)
            requires
                q == -p,
        ;
    }
}

/// A number is written with decimal digits, the last of which is its remainder
/// by ten, after those of its tenth; a number below ten has one digit.
pub proof fn law_decimals_are_written_digit_by_digit(n: nat)
    ensures
        decimal(n).len() > 0,
        forall|i: int| 0 <= i < decimal(n).len() ==> '0' <= #[trigger] decimal(n)[i] <= '9',
        decimal(n).last() as int - '0' as int == n % 10,
        n < 10 ==> decimal(n).len() == 1,
        n >= 10 ==> decimal(n).drop_last() == decimal(n / 10),
    decreases n,
{
    reveal_strlit("0123456789");
    assert('0' <= digit(n % 10) <= '9' && digit(n % 10) as int - '0' as int == n % 10);
    if n >= 10 {
        law_decimals_are_written_digit_by_digit(n / 10);
        assert(decimal(n).drop_last() =~= decimal(n / 10));
    }
}

/// The contents of strings are those of each string, in order.
pub proof fn law_texts_are_those_of_the_strings(strings: Seq<String>, text: Option<String>)
    ensures
        texts(strings).len() == strings.len(),
        forall|i: int| 0 <= i < strings.len() ==> #[trigger] texts(strings)[i] == strings[i]@,
        text is None <==> text_of(text) is None,
        text matches Some(t) ==> text_of(text) == Some(t@),
{
}

/// Of the ASCII characters, those from tabulator to carriage return and the
/// space are white space, and of all characters none beyond the ideographic
/// space is.
pub proof fn law_white_space(c: char)
    ensures
        (c as u32) < 0x80 ==> (is_white_space(c) <==> c == ' ' || 9 <= c as u32 <= 13),
        c as u32 > 0x3000 ==> !is_white_space(c),
        is_white_space('\u{3000}'),
{
}

/// All characters of `s` are white space.
pub open spec fn is_blank(s: Seq<char>) -> bool {
    forall|i: int| 0 <= i < s.len() ==> is_white_space(#[trigger] s[i])
}

proof fn lemma_trimmed_start(s: Seq<char>) -> (n: int)
    ensures
        0 <= n <= s.len(),
        s == s.take(n) + trimmed_start(s),
        forall|i: int| 0 <= i < n ==> is_white_space(#[trigger] s[i]),
        trimmed_start(s).len() > 0 ==> !is_white_space(trimmed_start(s)[0]),
    decreases s.len(),
{
    if s.len() > 0 && is_white_space(s[0]) {
        let rest = s.drop_first();
        let n = lemma_trimmed_start(rest);
        assert forall|i: int| 0 <= i < n + 1 implies is_white_space(#[trigger] s[i]) by {
            if i > 0 {
                assert(s[i] == rest[i - 1]);
            }
        }
        assert(s =~= s.take(n + 1) + trimmed_start(s)) by {
            assert(s.take(n + 1) =~= seq![s[0]] + rest.take(n));
            assert(s =~= seq![s[0]] + rest);
            assert(seq![s[0]] + (rest.take(n) + trimmed_start(rest)) =~= (seq![s[0]] + rest.take(n))
                + trimmed_start(rest));
        }
        n + 1
    } else {
        assert(s =~= s.take(0) + s);
        0
    }
}

proof fn lemma_trimmed_end(s: Seq<char>) -> (n: int)
    ensures
        0 <= n <= s.len(),
        trimmed_end(s) == s.take(n),
        forall|i: int| n <= i < s.len() ==> is_white_space(#[trigger] s[i]),
        n > 0 ==> !is_white_space(s[n - 1]),
    decreases s.len(),
{
    if s.len() > 0 && is_white_space(s.last()) {
        let rest = s.drop_last();
        let n = lemma_trimmed_end(rest);
        assert(rest.take(n) =~= s.take(n));
        assert forall|i: int| n <= i < s.len() implies is_white_space(#[trigger] s[i]) by {
            if i < rest.len() {
                assert(s[i] == rest[i]);
            }
        }
        if n > 0 {
            assert(rest[n - 1] == s[n - 1]);
        }
        n
    } else {
        assert(s.take(s.len() as int) =~= s);
        s.len() as int
    }
}

/// Trimming takes away white space at both ends and nothing else: the text is
/// white space, the trimmed text and white space again, and the trimmed text
/// neither begins nor ends with white space. `n` characters are taken away in
/// front.
pub proof fn law_trimming_takes_away_white_space(s: Seq<char>) -> (n: int)
    ensures
        0 <= n <= n + trimmed(s).len() <= s.len(),
        trimmed(s) == s.subrange(n, n + trimmed(s).len()),
        forall|i: int|
            0 <= i < n || n + trimmed(s).len() <= i < s.len() ==> is_white_space(#[trigger] s[i]),
        trimmed(s).len() > 0 ==> !is_white_space(trimmed(s)[0]) && !is_white_space(
            trimmed(s).last(),
        ),
{
    let n = lemma_trimmed_start(s);
    let rest = trimmed_start(s);
    let m = lemma_trimmed_end(rest);
    assert(rest =~= s.skip(n)) by {
        assert(s.skip(n) =~= (s.take(n) + rest).skip(n));
    }
    if m == 0 && rest.len() > 0 {
        assert(is_white_space(rest[0]));
    }
    assert(trimmed(s) =~= s.subrange(n, n + m));
    assert forall|i: int| n + m <= i < s.len() implies is_white_space(#[trigger] s[i]) by {
        assert(s[i] == rest[i - n]);
    }
    if m > 0 {
        assert(trimmed(s)[0] == rest[0]);
        assert(trimmed(s).last() == rest[m - 1]);
    }
    n
}

/// A text without white space at its ends stays as it is when it is trimmed,
/// and of white space nothing is left.
pub proof fn law_what_is_trimmed_stays(s: Seq<char>)
    ensures
        s.len() > 0 && !is_white_space(s[0]) && !is_white_space(s.last()) ==> trimmed(s) == s,
        is_blank(s) ==> trimmed(s).len() == 0,
{
    let n = law_trimming_takes_away_white_space(s);
    let m = n + trimmed(s).len();
    if s.len() > 0 && !is_white_space(s[0]) && !is_white_space(s.last()) {
        if n > 0 {
            assert(is_white_space(s[0]));
        }
        if m < s.len() {
            assert(is_white_space(s[s.len() - 1]));
        }
        assert(s.subrange(0, s.len() as int) =~= s);
    }
    if is_blank(s) && trimmed(s).len() > 0 {
        assert(trimmed(s)[0] == s[n]);
    }
}

/// The pieces, with line feeds between them.
pub open spec fn with_line_feeds(pieces: Seq<Seq<char>>) -> Seq<char>
    decreases pieces.len(),
{
    if pieces.len() == 0 {
        Seq::empty()
    } else if pieces.len() == 1 {
        pieces[0]
    } else {
        with_line_feeds(pieces.drop_last()).push('\n') + pieces.last()
    }
}

/// The pieces of a text hold no line feed, and with line feeds between them
/// they are the text again.
pub proof fn law_pieces_make_up_the_text(s: Seq<char>)
    ensures
        line_pieces(s).len() > 0,
        with_line_feeds(line_pieces(s)) == s,
        forall|i: int|
            0 <= i < line_pieces(s).len() ==> !(#[trigger] line_pieces(s)[i]).contains('\n'),
    decreases s.len(),
{
    let pieces = line_pieces(s);
    if s.len() == 0 {
        assert(with_line_feeds(pieces) =~= s);
        assert(!Seq::<char>::empty().contains('\n'));
    } else {
        let front = s.drop_last();
        let before = line_pieces(front);
        law_pieces_make_up_the_text(front);
        let last = before.last();
        assert(!before[before.len() - 1].contains('\n'));
        if s.last() == '\n' {
            assert(pieces.drop_last() =~= before);
            assert(with_line_feeds(pieces) =~= front.push('\n'));
            assert(s =~= front.push('\n'));
        } else {
            assert(pieces.drop_last() =~= before.drop_last());
            assert(s =~= front.push(s.last()));
            if before.len() == 1 {
                assert(with_line_feeds(pieces) =~= front.push(s.last()));
            } else {
                let head = with_line_feeds(before.drop_last()).push('\n');
                assert(head + last.push(s.last()) =~= (head + last).push(s.last()));
            }
            assert(!last.push(s.last()).contains('\n')) by {
                assert forall|i: int| 0 <= i < last.push(s.last()).len() implies last.push(
                    s.last(),
                )[i] != '\n' by {
                    if i < last.len() {
                        assert(last.contains(last[i]));
                    }
                }
            }
        }
        assert forall|i: int| 0 <= i < pieces.len() implies !(#[trigger] pieces[i]).contains(
            '\n',
        ) by {
            if i < before.len() - 1 || (s.last() == '\n' && i < before.len()) {
                assert(pieces[i] == before[i]);
            }
        }
    }
}

/// The texts, each with a line feed behind it.
pub open spec fn as_lines(lines: Seq<Seq<char>>) -> Seq<char>
    decreases lines.len(),
{
    if lines.len() == 0 {
        Seq::empty()
    } else {
        as_lines(lines.drop_last()) + lines.last().push('\n')
    }
}

proof fn lemma_pieces_of_line(s: Seq<char>, line: Seq<char>)
    requires
        !line.contains('\n'),
    ensures
        line_pieces(s + line) == line_pieces(s).drop_last().push(line_pieces(s).last() + line),
    decreases line.len(),
{
    law_pieces_make_up_the_text(s);
    let before = line_pieces(s);
    if line.len() == 0 {
        assert(s + line =~= s);
        assert(before.last() + line =~= before.last());
        assert(before.drop_last().push(before.last()) =~= before);
    } else {
        let front = line.drop_last();
        assert(line.contains(line[line.len() - 1]));
        assert(!front.contains('\n')) by {
            if front.contains('\n') {
                assert(line[front.index_of('\n')] == '\n');
            }
        }
        lemma_pieces_of_line(s, front);
        assert((s + line).drop_last() =~= s + front);
        assert((s + line).last() == line.last());
        let middle = before.drop_last().push(before.last() + front);
        assert(middle.drop_last() =~= before.drop_last());
        assert((before.last() + front).push(line.last()) =~= before.last() + line);
    }
}

proof fn lemma_pieces_of_lines(lines: Seq<Seq<char>>)
    requires
        forall|i: int| 0 <= i < lines.len() ==> !(#[trigger] lines[i]).contains('\n'),
    ensures
        line_pieces(as_lines(lines)) == lines.push(Seq::empty()),
    decreases lines.len(),
{
    if lines.len() == 0 {
        assert(line_pieces(as_lines(lines)) =~= lines.push(Seq::empty()));
    } else {
        let front = lines.drop_last();
        assert forall|i: int| 0 <= i < front.len() implies !(#[trigger] front[i]).contains(
            '\n',
        ) by {
            assert(front[i] == lines[i]);
        }
        lemma_pieces_of_lines(front);
        let last = lines[lines.len() - 1];
        let before = as_lines(front);
        lemma_pieces_of_line(before, last);
        assert(line_pieces(before + last) =~= front.push(last)) by {
            assert(front.push(Seq::empty()).drop_last() =~= front);
            assert(Seq::<char>::empty() + last =~= last);
        }
        assert(front.push(last) =~= lines);
        let text = as_lines(lines);
        assert(text =~= (before + last).push('\n'));
        assert(text.drop_last() =~= before + last);
    }
}

/// Every line of a text that is not blank is, trimmed, one of the lines listed,
/// in order, and there are no others: lines without white space at their ends,
/// each with a line feed behind it, are listed as they are.
pub proof fn law_lines_are_listed(lines: Seq<Seq<char>>)
    requires
        forall|i: int|
            0 <= i < lines.len() ==> (#[trigger] lines[i]).len() > 0 && !lines[i].contains('\n')
                && !is_white_space(lines[i][0]) && !is_white_space(lines[i].last()),
    ensures
        non_blank_lines(as_lines(lines)) == lines,
{
    lemma_pieces_of_lines(lines);
    let trim = |line: Seq<char>| trimmed(line);
    let keep = |line: Seq<char>| line.len() > 0;
    let all = lines.push(Seq::empty()).map_values(trim);
    assert forall|i: int| 0 <= i < lines.len() implies trimmed(#[trigger] lines[i]) == lines[i] by {
        law_what_is_trimmed_stays(lines[i]);
    }
    law_what_is_trimmed_stays(Seq::empty());
    assert(all.drop_last() =~= lines);
    assert(all.last().len() == 0);
    reveal(Seq::filter);
    lemma_all_kept(lines);
}

proof fn lemma_all_kept(lines: Seq<Seq<char>>)
    requires
        forall|i: int| 0 <= i < lines.len() ==> (#[trigger] lines[i]).len() > 0,
    ensures
        lines.filter(|line: Seq<char>| line.len() > 0) == lines,
    decreases lines.len(),
{
    reveal(Seq::filter);
    if lines.len() > 0 {
        lemma_all_kept(lines.drop_last());
        assert(lines.drop_last().push(lines.last()) =~= lines);
    }
}

/// What is listed of two texts, the first of which ends with a line feed, is
/// what is listed of the first and then of the second.
pub proof fn law_lines_are_listed_piece_by_piece(s: Seq<char>, t: Seq<char>)
    ensures
        non_blank_lines(s.push('\n') + t) == non_blank_lines(s) + non_blank_lines(t),
{
    lemma_pieces_of_both(s, t);
    let trim = |line: Seq<char>| trimmed(line);
    let keep = |line: Seq<char>| line.len() > 0;
    let a = line_pieces(s);
    let b = line_pieces(t);
    assert((a + b).map_values(trim) =~= a.map_values(trim) + b.map_values(trim));
    Seq::filter_distributes_over_add(a.map_values(trim), b.map_values(trim), keep);
}

proof fn lemma_pieces_of_both(s: Seq<char>, t: Seq<char>)
    ensures
        line_pieces(s.push('\n') + t) == line_pieces(s) + line_pieces(t),
    decreases t.len(),
{
    law_pieces_make_up_the_text(t);
    if t.len() == 0 {
        assert(s.push('\n') + t =~= s.push('\n'));
        assert(s.push('\n').drop_last() =~= s);
        assert(line_pieces(s.push('\n')) =~= line_pieces(s) + line_pieces(t));
    } else {
        let front = t.drop_last();
        lemma_pieces_of_both(s, front);
        law_pieces_make_up_the_text(front);
        let whole = s.push('\n') + t;
        assert(whole.drop_last() =~= s.push('\n') + front);
        assert(whole.last() == t.last());
        let a = line_pieces(s);
        let b = line_pieces(front);
        assert((a + b).last() == b.last());
        assert((a + b).drop_last() =~= a + b.drop_last());
        assert(line_pieces(whole) =~= a + line_pieces(t));
    }
}

/// A map of strings, as texts, holds the text of each string.
pub proof fn law_text_values(map: Map<Seq<char>, String>, key: Seq<char>)
    ensures
        text_values(map).contains_key(key) <==> map.contains_key(key),
        map.contains_key(key) ==> text_values(map)[key] == map[key]@,
{
}

/// An entry with a key of its own is what the map holds at that key, and the map
/// holds no other keys than those of the entries.
pub proof fn law_entries_make_up_the_map<V>(entries: Seq<(String, V)>, i: int, key: Seq<char>)
    requires
        0 <= i < entries.len(),
        forall|j: int, k: int|
            0 <= j < k < entries.len() ==> (#[trigger] entries[j]).0@ != (
            #[trigger] entries[k]).0@,
    ensures
        entry_map(entries).contains_key(entries[i].0@),
        entry_map(entries)[entries[i].0@] == entries[i].1,
        entry_map(entries).contains_key(key) ==> exists|j: int|
            0 <= j < entries.len() && (#[trigger] entries[j]).0@ == key,
{
    let keys = entry_keys(entries);
    assert(keys.no_duplicates()) by {
        assert forall|j: int, k: int|
            0 <= j < keys.len() && 0 <= k < keys.len() && j != k implies keys[j] != keys[k] by {
            if j < k {
                assert(entries[j].0@ != entries[k].0@);
            } else {
                assert(entries[k].0@ != entries[j].0@);
            }
        }
    }
    lemma_entry(entries, i);
    if entry_map(entries).contains_key(key) {
        let j = keys.index_of(key);
        assert(keys.contains(key));
        assert(entries[j].0@ == key);
    }
}

/// Of entries with the same key, the last is what the map holds; at a key that
/// no entry has it holds what it held before.
pub proof fn law_the_last_entry_counts(
    map: Map<Seq<char>, Seq<char>>,
    entries: Seq<(String, String)>,
    i: int,
    key: Seq<char>,
)
    ensures
        0 <= i < entries.len() && (forall|j: int|
            i < j < entries.len() ==> (#[trigger] entries[j]).0@ != entries[i].0@)
            ==> with_entries(map, entries).contains_key(entries[i].0@) && with_entries(
            map,
            entries,
        )[entries[i].0@] == entries[i].1@,
        (forall|j: int| 0 <= j < entries.len() ==> (#[trigger] entries[j]).0@ != key) ==> (
        with_entries(map, entries).contains_key(key) <==> map.contains_key(key)) && (
        map.contains_key(key) ==> with_entries(map, entries)[key] == map[key]),
    decreases entries.len(),
{
    if entries.len() > 0 {
        let front = entries.drop_last();
        law_the_last_entry_counts(map, front, i, key);
        if 0 <= i < front.len() && (forall|j: int|
            i < j < entries.len() ==> (#[trigger] entries[j]).0@ != entries[i].0@) {
            assert forall|j: int| i < j < front.len() implies (#[trigger] front[j]).0@
                != front[i].0@ by {
                assert(front[j] == entries[j]);
            }
            assert(entries[entries.len() - 1].0@ != entries[i].0@);
        }
        if forall|j: int| 0 <= j < entries.len() ==> (#[trigger] entries[j]).0@ != key {
            assert forall|j: int| 0 <= j < front.len() implies (#[trigger] front[j]).0@ != key by {
                assert(front[j] == entries[j]);
            }
            assert(entries[entries.len() - 1].0@ != key);
        }
    }
}

/// The instants are the seconds from the start of the year -262143 to the end of
/// the year 262142, each with less than two billion nanoseconds, and an instant
/// is counted in whole milliseconds.
pub proof fn law_instants(secs: int, nanos: int)
    ensures
        is_instant(secs, nanos) <==> -8_334_601_228_800 <= secs <= 8_210_266_876_799 && 0 <= nanos
            < 2_000_000_000,
        0 <= secs * 1_000_000_000 + nanos - instant_millis(secs, nanos) * 1_000_000 < 1_000_000,
        millis_in_range(secs) <==> -8_334_601_228_800_000 <= secs <= 8_210_266_876_799_999,
{
}

/// The view of an error shows which kind it is, its message and, where it may go
/// away, when to try again.
pub proof fn law_errors_show_their_message(message: String, retry_after: Wait)
    ensures
        (TranscriptError::Fatal { message })@ == (TranscriptErrorView::Fatal {
            message: message@,
        }),
        (TranscriptError::Transient { message, retry_after })@ == (TranscriptErrorView::Transient {
            message: message@,
            retry_after,
        }),
{
}

/// A JSON value is what its variant says: an array has the values of its
/// elements, in order, and an object at each key that of its first member with
/// that key.
pub proof fn law_json_values(
    b: bool,
    n: JsonNumber,
    t: String,
    items: Vec<JsonValue>,
    members: Vec<(String, JsonValue)>,
    i: int,
    key: Seq<char>,
)
    ensures
        JsonValue::Null@ == Json::Null,
        JsonValue::Bool(b)@ == Json::Bool(b),
        JsonValue::Number(n)@ == Json::Number(n),
        JsonValue::Text(t)@ == Json::Text(t@),
        JsonValue::Array(items)@ matches Json::Array(values) && values.len() == items@.len() && (0
            <= i < items@.len() ==> values[i] == items@[i]@),
        0 <= i < members@.len() && members@[i].0@ == key && (forall|j: int|
            0 <= j < i ==> (#[trigger] members@[j]).0@ != key) ==> JsonValue::Object(
            members,
        )@.member(key) == Some(members@[i].1@),
        (forall|j: int| 0 <= j < members@.len() ==> (#[trigger] members@[j]).0@ != key)
            ==> JsonValue::Object(members)@.member(key) is None,
        JsonValue::Array(items)@.member(key) is None,
        JsonValue::Text(t)@.member(key) is None,
{
    lemma_array_len(items@);
    if 0 <= i < items@.len() {
        lemma_array_item(items@, i);
    }
    let pairs = member_pairs(members@);
    lemma_object_members(members@);
    if 0 <= i < members@.len() && members@[i].0@ == key && (forall|j: int|
        0 <= j < i ==> (#[trigger] members@[j]).0@ != key) {
        assert forall|j: int| 0 <= j < i implies (#[trigger] pairs[j]).0 != pairs[i].0 by {
            assert(members@[j].0@ != key);
        }
        lemma_member_at(pairs, i);
    }
    if forall|j: int| 0 <= j < members@.len() ==> (#[trigger] members@[j]).0@ != key {
        assert forall|j: int| 0 <= j < pairs.len() implies (#[trigger] pairs[j]).0 != key by {
            assert(members@[j].0@ != key);
        }
        lemma_no_member(pairs, key);
    }
}

/// Integers are numbers, negative ones apart from the others; what is not there
/// is null, and so is a floating-point number whose exponent is all ones.
pub proof fn law_json_of_columns(n: i64, text: Seq<char>, bits: u64)
    ensures
        n >= 0 ==> integer(n as int) == JsonNumber::PosInt(n as u64),
        n < 0 ==> integer(n as int) == JsonNumber::NegInt(n),
        Json::Number(integer(n as int)).int64() == Some(n as int),
        optional_integer(None) == Json::Null,
        optional_integer(Some(n)) == Json::Number(integer(n as int)),
        optional_text(None) == Json::Null,
        optional_text(Some(text)) == Json::Text(text),
        optional_float(None) == Json::Null,
        bits % 0x8000_0000_0000_0000 >= 0x7ff0_0000_0000_0000 ==> optional_float(Some(bits))
            == Json::Null,
        bits % 0x8000_0000_0000_0000 < 0x7ff0_0000_0000_0000 ==> optional_float(Some(bits))
            == Json::Number(JsonNumber::Float(bits)),
        Json::Text(text).text() == Some(text),
        Json::Null.text() is None,
        Json::Null.int64() is None,
{
    assert((bits / 0x10_0000_0000_0000) % 0x800 == 0x7ff <==> bits % 0x8000_0000_0000_0000
        >= 0x7ff0_0000_0000_0000) by (bit_vector);
}

/// A text, an integer or a member is read from a value that holds one and from
/// no other; an integer is read where 64 bits with a sign can hold it.
pub proof fn law_json_reading(value: Json, members: Map<Seq<char>, Json>, key: Seq<char>, n: u64)
    ensures
        value.text() matches Some(t) ==> value == Json::Text(t),
        value.text() is None ==> !(value is Text),
        value.int64() is Some ==> value is Number,
        value is Number && value->Number_0 is Float ==> value.int64() is None,
        value matches Json::Number(JsonNumber::NegInt(m)) ==> value.int64() == Some(m as int),
        Json::Number(JsonNumber::PosInt(n)).int64() == if n < 0x8000_0000_0000_0000 {
            Some(n as int)
        } else {
            None
        },
        value.member(key) is Some ==> value is Object,
        Json::Object(members).member(key) is Some <==> members.contains_key(key),
        members.contains_key(key) ==> Json::Object(members).member(key) == Some(members[key]),
{
}

} // verus!
