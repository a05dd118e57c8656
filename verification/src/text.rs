//! Text handling shared by the other modules: decimal numbers, trimming and the
//! splitting of command output into lines.
use vstd::prelude::*;

verus! {

/// The contents of a sequence of strings.
pub open spec fn texts(strings: Seq<String>) -> Seq<Seq<char>> {
    strings.map_values(|s: String| s@)
}

/// The contents of an optional string.
pub open spec fn text_of(text: Option<String>) -> Option<Seq<char>> {
    match text {
        Some(t) => Some(t@),
        None => None,
    }
}

/// The decimal digit with value `d`.
pub open spec fn digit(d: nat) -> char {
    "0123456789"@[d as int]
}

/// The decimal representation of `n`, without leading zeros.
pub open spec fn decimal(n: nat) -> Seq<char>
    decreases n,
{
    if n < 10 {
        seq![digit(n)]
    } else {
        decimal(n / 10).push(digit(n % 10))
    }
}

/// Whether `c` has the Unicode property White_Space.
pub open spec fn is_white_space(c: char) -> bool {
    let p = c as u32;
    ||| 0x09 <= p <= 0x0d
    ||| p == 0x20
    ||| p == 0x85
    ||| p == 0xa0
    ||| p == 0x1680
    ||| 0x2000 <= p <= 0x200a
    ||| p == 0x2028
    ||| p == 0x2029
    ||| p == 0x202f
    ||| p == 0x205f
    ||| p == 0x3000
}

/// `s` without leading white space.
pub open spec fn trimmed_start(s: Seq<char>) -> Seq<char>
    decreases s.len(),
{
    if s.len() > 0 && is_white_space(s[0]) {
        trimmed_start(s.drop_first())
    } else {
        s
    }
}

/// `s` without trailing white space.
pub open spec fn trimmed_end(s: Seq<char>) -> Seq<char>
    decreases s.len(),
{
    if s.len() > 0 && is_white_space(s.last()) {
        trimmed_end(s.drop_last())
    } else {
        s
    }
}

/// `s` without leading and trailing white space.
pub open spec fn trimmed(s: Seq<char>) -> Seq<char> {
    trimmed_end(trimmed_start(s))
}

/// The pieces of `s` between line feeds; the last piece is what follows the
/// last line feed.
pub open spec fn line_pieces(s: Seq<char>) -> Seq<Seq<char>>
    decreases s.len(),
{
    if s.len() == 0 {
        seq![Seq::empty()]
    } else {
        let before = line_pieces(s.drop_last());
        if s.last() == '\n' {
            before.push(Seq::empty())
        } else {
            before.drop_last().push(before.last().push(s.last()))
        }
    }
}

/// The lines of `s`, trimmed, without those that hold only white space.
pub open spec fn non_blank_lines(s: Seq<char>) -> Seq<Seq<char>> {
    line_pieces(s).map_values(|line: Seq<char>| trimmed(line)).filter(
        |line: Seq<char>| line.len() > 0,
    )
}

/// What `String::from_utf8_lossy` makes of `bytes`.
pub uninterp spec fn utf8_lossy(bytes: Seq<u8>) -> Seq<char>;

/// Calls `String::from_utf8_lossy`. Its result depends on the bytes alone; bytes
/// that are valid UTF-8 are decoded as they stand. How it replaces invalid
/// bytes is left unsaid.
#[verifier::external_body]
pub(crate) fn from_utf8_lossy(bytes: &[u8]) -> (text: String)
    ensures
        text@ == utf8_lossy(bytes@),
        vstd::utf8::valid_utf8(bytes@) ==> text@ == vstd::utf8::decode_utf8(bytes@),
{
    String::from_utf8_lossy(bytes).into_owned()
}

/// `String::push` appends one character.
pub assume_specification[ String::push ](s: &mut String, c: char)
    ensures
        final(s)@ == old(s)@.push(c),
;

/// A copy of strings.
pub fn copied_texts(strings: &[String]) -> (copy: Vec<String>)
    ensures
        copy@ == strings@,
{
    let mut copy: Vec<String> = Vec::new();
    let n: usize = strings.len();
    let mut i: usize = 0;
    while i < n
        invariant
            i <= n == strings@.len(),
            copy@ == strings@.take(i as int),
        decreases n - i,
    {
        copy.push(strings[i].clone());
        i = i + 1;
        assert(copy@ =~= strings@.take(i as int));
    }
    assert(copy@ =~= strings@);
    copy
}

/// The text in bytes: what they are in UTF-8, or what is made of them where they
/// are none.
pub open spec fn output_text(bytes: Seq<u8>) -> Seq<char> {
    if vstd::utf8::valid_utf8(bytes) {
        vstd::utf8::decode_utf8(bytes)
    } else {
        utf8_lossy(bytes)
    }
}

fn digit_char(d: usize) -> (c: char)
    requires
        d < 10,
    ensures
        c == digit(d as nat),
{
    proof {
        reveal_strlit("0123456789");
    }
    match d {
        0 => '0',
        1 => '1',
        2 => '2',
        3 => '3',
        4 => '4',
        5 => '5',
        6 => '6',
        7 => '7',
        8 => '8',
        _ => '9',
    }
}

/// The decimal representation of `n`.
pub fn decimal_string(n: usize) -> (text: String)
    ensures
        text@ == decimal(n as nat),
    decreases n,
{
    if n < 10 {
        let mut text = String::new();
        text.push(digit_char(n));
        text
    } else {
        let mut text = decimal_string(n / 10);
        text.push(digit_char(n % 10));
        text
    }
}

/// Whether `c` has the Unicode property White_Space.
pub fn white_space(c: char) -> (b: bool)
    ensures
        b == is_white_space(c),
{
    let p: u32 = c as u32;
    (0x09 <= p && p <= 0x0d) || p == 0x20 || p == 0x85 || p == 0xa0 || p == 0x1680 || (0x2000 <= p
        && p <= 0x200a) || p == 0x2028 || p == 0x2029 || p == 0x202f || p == 0x205f || p == 0x3000
}

/// The characters of `line`, without leading and trailing white space.
fn trim_chars(line: &Vec<char>) -> (text: String)
    ensures
        text@ == trimmed(line@),
{
    let n: usize = line.len();
    let mut start: usize = 0;
    assert(line@.skip(0) =~= line@);
    while start < n && white_space(line[start])
        invariant
            start <= n == line@.len(),
            trimmed_start(line@) == trimmed_start(line@.skip(start as int)),
        decreases n - start,
    {
        assert(line@.skip(start as int).drop_first() =~= line@.skip(start + 1));
        start = start + 1;
    }
    let ghost rest = line@.skip(start as int);
    assert(rest == trimmed_start(line@));
    let mut end: usize = n;
    assert(line@.subrange(start as int, n as int) =~= rest);
    while start < end && white_space(line[end - 1])
        invariant
            start <= end <= n == line@.len(),
            trimmed_end(rest) == trimmed_end(line@.subrange(start as int, end as int)),
        decreases end,
    {
        assert(line@.subrange(start as int, end as int).drop_last() =~= line@.subrange(
            start as int,
            end - 1,
        ));
        end = end - 1;
    }
    let mut text = String::new();
    let mut i: usize = start;
    while i < end
        invariant
            start <= i <= end <= line@.len(),
            text@ == line@.subrange(start as int, i as int),
        decreases end - i,
    {
        text.push(line[i]);
        i = i + 1;
        assert(text@ =~= line@.subrange(start as int, i as int));
    }
    text
}

/// The lines of `text`, trimmed, without those that hold only white space.
pub fn non_blank_line_list(text: &str) -> (lines: Vec<String>)
    ensures
        texts(lines@) == non_blank_lines(text@),
{
    let ghost keep = |line: Seq<char>| line.len() > 0;
    let ghost trim = |line: Seq<char>| trimmed(line);
    let mut lines: Vec<String> = Vec::new();
    let mut current: Vec<char> = Vec::new();
    let ghost mut done: Seq<Seq<char>> = Seq::empty();
    proof {
        reveal(Seq::filter);
        assert(texts(lines@) =~= done.map_values(trim).filter(keep));
        assert(line_pieces(text@.take(0)) =~= done.push(current@));
    }
    for c in it: text.chars()
        invariant
            keep == (|line: Seq<char>| line.len() > 0),
            trim == (|line: Seq<char>| trimmed(line)),
            it.seq() == text@,
            line_pieces(text@.take(it.index())) == done.push(current@),
            texts(lines@) == done.map_values(trim).filter(keep),
    {
        let ghost so_far = text@.take(it.index());
        let ghost next = text@.take(it.index() + 1);
        proof {
            assert(next =~= so_far.push(c));
            assert(next.drop_last() =~= so_far);
        }
        if c == '\n' {
            keep_line(&mut lines, &current, Ghost(done));
            proof {
                assert(line_pieces(next) =~= done.push(current@).push(Seq::empty()));
                done = done.push(current@);
            }
            current = Vec::new();
        } else {
            let ghost line = current@;
            current.push(c);
            proof {
                assert(done.push(line).drop_last() =~= done);
                assert(line_pieces(next) =~= done.push(current@));
            }
        }
    }
    keep_line(&mut lines, &current, Ghost(done));
    proof {
        assert(text@.take(text@.len() as int) =~= text@);
    }
    lines
}

/// Adds a finished line to `lines`, unless it is blank.
fn keep_line(lines: &mut Vec<String>, line: &Vec<char>, Ghost(done): Ghost<Seq<Seq<char>>>)
    requires
        texts(old(lines)@) == done.map_values(|line: Seq<char>| trimmed(line)).filter(
            |line: Seq<char>| line.len() > 0,
        ),
    ensures
        texts(final(lines)@) == done.push(line@).map_values(
            |line: Seq<char>| trimmed(line),
        ).filter(|line: Seq<char>| line.len() > 0),
{
    let text = trim_chars(line);
    let ghost keep = |line: Seq<char>| line.len() > 0;
    let ghost trim = |line: Seq<char>| trimmed(line);
    proof {
        let all = done.push(line@).map_values(trim);
        reveal(Seq::filter);
        assert(all.drop_last() =~= done.map_values(trim));
        assert(all.last() == text@);
    }
    if !text.as_str().is_empty() {
        lines.push(text);
        proof {
            assert(texts(lines@) =~= texts(old(lines)@).push(text@));
        }
    }
}

} // verus!
