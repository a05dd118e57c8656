//! How a fast-import stream is read, and that a stream for display reads as
//! the commands that it was written from.
use crate::fast_import::{
    byte_count, change_text, changes_text, command_text, commands_text, display_commands,
    display_committer, display_ref, line, note_changes, FileChange, ImportCommand,
};
use crate::text::{decimal, digit};
use vstd::prelude::*;

verus! {

/// The length of the first line of `text`, without the line feed.
pub open spec fn line_len(text: Seq<char>) -> nat
    decreases text.len(),
{
    if text.len() == 0 || text[0] == '\n' {
        0
    } else {
        1 + line_len(text.drop_first())
    }
}

/// The first line of `text`, without the line feed.
pub open spec fn first_line(text: Seq<char>) -> Seq<char> {
    text.take(line_len(text) as int)
}

/// What follows the first line of `text`.
pub open spec fn after_line(text: Seq<char>) -> Seq<char> {
    if line_len(text) < text.len() {
        text.skip(line_len(text) as int + 1)
    } else {
        Seq::empty()
    }
}

/// What follows `prefix` in `text`, if `text` begins with it.
pub open spec fn after_prefix(text: Seq<char>, prefix: Seq<char>) -> Option<Seq<char>> {
    if prefix.is_prefix_of(text) {
        Some(text.skip(prefix.len() as int))
    } else {
        None
    }
}

/// The value of a decimal digit.
pub open spec fn digit_value(c: char) -> Option<nat> {
    if '0' <= c <= '9' {
        Some((c as int - '0' as int) as nat)
    } else {
        None
    }
}

/// The number that is written in `text`.
pub open spec fn number(text: Seq<char>) -> Option<nat>
    decreases text.len(),
{
    if text.len() == 0 {
        None
    } else if text.len() == 1 {
        digit_value(text[0])
    } else {
        match (number(text.drop_last()), digit_value(text.last())) {
            (Some(n), Some(d)) => Some(n * 10 + d),
            _ => None,
        }
    }
}

/// How many characters at the beginning of `text` are `bytes` bytes in UTF-8.
pub open spec fn data_len(text: Seq<char>, bytes: int) -> Option<nat>
    decreases text.len(),
{
    if bytes == 0 {
        Some(0)
    } else if text.len() == 0 || bytes < 0 {
        None
    } else {
        match data_len(text.drop_first(), bytes - byte_count(text.take(1))) {
            Some(n) => Some(n + 1),
            None => None,
        }
    }
}

/// A path that stands for itself. One that begins with a quotation mark would
/// be read as quoted.
pub open spec fn is_plain_path(path: Seq<char>) -> bool {
    &&& path.len() > 0
    &&& path[0] != '"'
    &&& !path.contains('\n')
}

/// The length of `text` up to the first space.
pub open spec fn word_len(text: Seq<char>) -> nat
    decreases text.len(),
{
    if text.len() == 0 || text[0] == ' ' {
        0
    } else {
        1 + word_len(text.drop_first())
    }
}

/// The change that is written in a line.
pub open spec fn read_change(text: Seq<char>) -> Option<FileChange> {
    match (after_prefix(text, "D "@), after_prefix(text, "M 100644 :"@)) {
        (Some(path), _) => if is_plain_path(path) {
            Some(FileChange::Delete { path })
        } else {
            None
        },
        (None, Some(rest)) => {
            let n = word_len(rest) as int;
            let path = rest.skip(n + 1);
            match number(rest.take(n)) {
                Some(mark) => if n < rest.len() && is_plain_path(path) {
                    Some(FileChange::Modify { mark, path })
                } else {
                    None
                },
                None => None,
            }
        },
        (None, None) => None,
    }
}

/// The changes at the beginning of `text`, and what follows them.
pub open spec fn read_changes(text: Seq<char>) -> (Seq<FileChange>, Seq<char>)
    decreases text.len(),
{
    match read_change(first_line(text)) {
        Some(change) => if after_line(text).len() < text.len() {
            let (changes, rest) = read_changes(after_line(text));
            (seq![change] + changes, rest)
        } else {
            (seq![change], Seq::empty())
        },
        None => (Seq::empty(), text),
    }
}

/// The blob in `text`, which follows its first line, and what follows it.
pub open spec fn read_blob(text: Seq<char>) -> Option<(ImportCommand, Seq<char>)> {
    let rest = after_line(text);
    let data = after_line(rest);
    match (after_prefix(first_line(text), "mark :"@), after_prefix(first_line(rest), "data "@)) {
        (Some(mark), Some(count)) => match (number(mark), number(count)) {
            (Some(mark), Some(count)) => match data_len(data, count as int) {
                Some(n) => Some(
                    (
                        ImportCommand::Blob { mark, data: data.take(n as int) },
                        without_line_feed(data.skip(n as int)),
                    ),
                ),
                None => None,
            },
            _ => None,
        },
        _ => None,
    }
}

/// `text` without a line feed at its beginning.
pub open spec fn without_line_feed(text: Seq<char>) -> Seq<char> {
    if text.len() > 0 && text[0] == '\n' {
        text.skip(1)
    } else {
        text
    }
}

/// The commit to `name` in `text`, which follows its first line, and what
/// follows it. The commits read here have an empty message.
pub open spec fn read_commit(name: Seq<char>, text: Seq<char>) -> Option<
    (ImportCommand, Seq<char>),
> {
    let rest = after_line(text);
    match after_prefix(first_line(text), "committer "@) {
        Some(committer) => if first_line(rest) == "data 0"@ {
            let (changes, rest) = read_changes(after_line(rest));
            Some((ImportCommand::Commit { name, committer, changes }, without_line_feed(rest)))
        } else {
            None
        },
        None => None,
    }
}

/// The command at the beginning of `text`, and what follows it.
pub open spec fn read_command(text: Seq<char>) -> Option<(ImportCommand, Seq<char>)> {
    let first = first_line(text);
    let rest = after_line(text);
    match (after_prefix(first, "reset "@), after_prefix(first, "commit "@)) {
        (Some(name), _) => Some((ImportCommand::Reset { name }, without_line_feed(rest))),
        (None, Some(name)) => read_commit(name, rest),
        (None, None) => if first == "blob"@ {
            read_blob(rest)
        } else {
            None
        },
    }
}

/// The commands that are written in `text`.
pub open spec fn read_commands(text: Seq<char>) -> Option<Seq<ImportCommand>>
    decreases text.len(),
{
    if text.len() == 0 {
        Some(Seq::empty())
    } else {
        match read_command(text) {
            Some((command, rest)) => if rest.len() < text.len() {
                match read_commands(rest) {
                    Some(commands) => Some(seq![command] + commands),
                    None => None,
                }
            } else {
                None
            },
            None => None,
        }
    }
}

proof fn lemma_first_line(text: Seq<char>, rest: Seq<char>)
    requires
        !text.contains('\n'),
    ensures
        first_line(line(text) + rest) == text,
        after_line(line(text) + rest) == rest,
{
    lemma_line_len(text, rest);
    assert((line(text) + rest).take(text.len() as int) =~= text);
    assert((line(text) + rest).skip(text.len() as int + 1) =~= rest);
}

proof fn lemma_line_len(text: Seq<char>, rest: Seq<char>)
    requires
        !text.contains('\n'),
    ensures
        line_len(line(text) + rest) == text.len(),
    decreases text.len(),
{
    let whole = line(text) + rest;
    if text.len() > 0 {
        let less = text.drop_first();
        assert(whole.drop_first() =~= line(less) + rest);
        assert(text.contains(text[0]));
        assert(!less.contains('\n')) by {
            if less.contains('\n') {
                let i = less.index_of('\n');
                assert(text[i + 1] == '\n');
            }
        }
        lemma_line_len(less, rest);
    }
}

proof fn lemma_after_prefix(prefix: Seq<char>, rest: Seq<char>)
    ensures
        after_prefix(prefix + rest, prefix) == Some(rest),
{
    assert((prefix + rest).skip(prefix.len() as int) =~= rest);
    assert(prefix.is_prefix_of(prefix + rest));
}

proof fn lemma_digit(d: nat)
    requires
        d < 10,
    ensures
        digit_value(digit(d)) == Some(d),
        digit(d) != '\n',
        digit(d) != ' ',
{
    reveal_strlit("0123456789");
}

proof fn lemma_number(n: nat)
    ensures
        number(decimal(n)) == Some(n),
        decimal(n).len() > 0,
        !decimal(n).contains('\n'),
        !decimal(n).contains(' '),
    decreases n,
{
    if n < 10 {
        lemma_digit(n);
    } else {
        lemma_number(n / 10);
        lemma_digit(n % 10);
        let before = decimal(n / 10);
        let d = digit(n % 10);
        assert(before.push(d).drop_last() =~= before);
        assert(!before.push(d).contains('\n') && !before.push(d).contains(' ')) by {
            assert forall|i: int| 0 <= i < before.push(d).len() implies before.push(d)[i] != '\n'
                && before.push(d)[i] != ' ' by {
                if i < before.len() {
                    assert(before.contains(before[i]));
                }
            }
        }
    }
}

proof fn lemma_data_len(data: Seq<char>, rest: Seq<char>)
    ensures
        data_len(data + rest, byte_count(data) as int) == Some(data.len()),
    decreases data.len(),
{
    reveal_with_fuel(vstd::utf8::encode_utf8, 2);
    if data.len() > 0 {
        let whole = data + rest;
        assert(whole.drop_first() =~= data.drop_first() + rest);
        assert(whole.take(1) =~= seq![data[0]]);
        assert(whole.take(1).drop_first() =~= Seq::empty());
        let head = vstd::utf8::encode_scalar(data[0] as u32);
        assert(head.len() >= 1);
        assert(byte_count(whole.take(1)) == head.len());
        assert(byte_count(data) == head.len() + byte_count(data.drop_first()));
        lemma_data_len(data.drop_first(), rest);
    }
}

proof fn lemma_word_len(word: Seq<char>, rest: Seq<char>)
    requires
        !word.contains(' '),
    ensures
        word_len(word + seq![' '] + rest) == word.len(),
    decreases word.len(),
{
    let whole = word + seq![' '] + rest;
    if word.len() > 0 {
        let less = word.drop_first();
        assert(whole.drop_first() =~= less + seq![' '] + rest);
        assert(word.contains(word[0]));
        assert(!less.contains(' ')) by {
            if less.contains(' ') {
                let i = less.index_of(' ');
                assert(word[i + 1] == ' ');
            }
        }
        lemma_word_len(less, rest);
    }
}

proof fn lemma_no_line_feed(a: Seq<char>, b: Seq<char>)
    requires
        !a.contains('\n'),
        !b.contains('\n'),
    ensures
        !(a + b).contains('\n'),
{
    assert forall|i: int| 0 <= i < (a + b).len() implies (a + b)[i] != '\n' by {
        if i < a.len() {
            assert(a.contains(a[i]));
        } else {
            assert(b.contains(b[i - a.len()]));
        }
    }
}

/// Whether a change can be written so that it reads as itself.
pub open spec fn writable_change(change: FileChange) -> bool {
    match change {
        FileChange::Delete { path } => is_plain_path(path),
        FileChange::Modify { path, .. } => is_plain_path(path),
    }
}

/// Whether a command can be written so that it reads as itself. Of data nothing
/// is asked.
pub open spec fn writable(command: ImportCommand) -> bool {
    match command {
        ImportCommand::Blob { .. } => true,
        ImportCommand::Reset { name } => !name.contains('\n'),
        ImportCommand::Commit { name, committer, changes } => {
            &&& !name.contains('\n')
            &&& !committer.contains('\n')
            &&& forall|i: int| 0 <= i < changes.len() ==> writable_change(#[trigger] changes[i])
        },
    }
}

proof fn lemma_change(change: FileChange, rest: Seq<char>)
    requires
        writable_change(change),
    ensures
        read_change(first_line(change_text(change) + rest)) == Some(change),
        after_line(change_text(change) + rest) == rest,
{
    reveal_strlit("D ");
    reveal_strlit("M 100644 :");
    reveal_strlit(" ");
    match change {
        FileChange::Delete { path } => {
            lemma_no_line_feed("D "@, path);
            lemma_first_line("D "@ + path, rest);
            lemma_after_prefix("D "@, path);
        },
        FileChange::Modify { mark, path } => {
            let word = decimal(mark);
            let tail = word + " "@ + path;
            let whole = "M 100644 :"@ + word + " "@ + path;
            lemma_number(mark);
            lemma_no_line_feed(word, " "@);
            lemma_no_line_feed(word + " "@, path);
            lemma_no_line_feed("M 100644 :"@, tail);
            assert(whole =~= "M 100644 :"@ + tail);
            lemma_first_line(whole, rest);
            lemma_after_prefix("M 100644 :"@, tail);
            assert(!"D "@.is_prefix_of(whole)) by {
                assert(whole[0] == 'M');
                assert("D "@[0] == 'D');
            }
            assert(" "@ =~= seq![' ']);
            lemma_word_len(word, path);
            assert(tail.take(word.len() as int) =~= word);
            assert(tail.skip(word.len() as int + 1) =~= path);
        },
    }
}

proof fn lemma_changes_text(change: FileChange, changes: Seq<FileChange>)
    ensures
        changes_text(seq![change] + changes) == change_text(change) + changes_text(changes),
    decreases changes.len(),
{
    let all = seq![change] + changes;
    if changes.len() == 0 {
        assert(all.drop_last() =~= Seq::empty());
        assert(all.last() == change);
        assert(changes_text(all.drop_last()) =~= Seq::empty());
    } else {
        assert(all.drop_last() =~= seq![change] + changes.drop_last());
        lemma_changes_text(change, changes.drop_last());
    }
    assert(changes_text(all) =~= change_text(change) + changes_text(changes));
}

proof fn lemma_changes(changes: Seq<FileChange>, rest: Seq<char>)
    requires
        forall|i: int| 0 <= i < changes.len() ==> writable_change(#[trigger] changes[i]),
        read_change(first_line(rest)) is None,
    ensures
        read_changes(changes_text(changes) + rest) == (changes, rest),
    decreases changes.len(),
{
    let text = changes_text(changes) + rest;
    if changes.len() == 0 {
        assert(text =~= rest);
        assert(changes =~= Seq::empty());
    } else {
        let change = changes[0];
        let more = changes.drop_first();
        assert(changes =~= seq![change] + more);
        lemma_changes_text(change, more);
        let after = changes_text(more) + rest;
        assert(text =~= change_text(change) + after);
        lemma_change(change, after);
        lemma_changes(more, rest);
    }
}

proof fn lemma_append(a: Seq<char>, b: Seq<char>, c: Seq<char>)
    ensures
        a + b + c == a + (b + c),
{
    assert(a + b + c =~= a + (b + c));
}

/// What is to be known of the words of a blob.
proof fn lemma_blob_words()
    ensures
        !"blob"@.contains('\n'),
        !"mark :"@.contains('\n'),
        !"data "@.contains('\n'),
        !"reset "@.is_prefix_of("blob"@),
        !"commit "@.is_prefix_of("blob"@),
{
    reveal_strlit("blob");
    reveal_strlit("mark :");
    reveal_strlit("data ");
    reveal_strlit("reset ");
    reveal_strlit("commit ");
}

proof fn lemma_blob_data(mark: nat, data: Seq<char>, rest: Seq<char>)
    ensures
        read_blob(
            line("mark :"@ + decimal(mark)) + (line("data "@ + decimal(byte_count(data))) + (line(
                data,
            ) + rest)),
        ) == Some((ImportCommand::Blob { mark, data }, rest)),
{
    lemma_blob_words();
    let count = byte_count(data);
    let body = line(data) + rest;
    let third = line("data "@ + decimal(count)) + body;
    lemma_number(mark);
    lemma_no_line_feed("mark :"@, decimal(mark));
    lemma_first_line("mark :"@ + decimal(mark), third);
    lemma_after_prefix("mark :"@, decimal(mark));
    lemma_number(count);
    lemma_no_line_feed("data "@, decimal(count));
    lemma_first_line("data "@ + decimal(count), body);
    lemma_after_prefix("data "@, decimal(count));
    let tail = seq!['\n'] + rest;
    assert(body =~= data + tail);
    lemma_data_len(data, tail);
    assert(body.take(data.len() as int) =~= data);
    assert(body.skip(data.len() as int) =~= tail);
    assert(tail.skip(1) =~= rest);
}

proof fn lemma_blob(mark: nat, data: Seq<char>, rest: Seq<char>)
    ensures
        read_command(command_text(ImportCommand::Blob { mark, data }) + rest) == Some(
            (ImportCommand::Blob { mark, data }, rest),
        ),
{
    let first = line("blob"@);
    let second = line("mark :"@ + decimal(mark));
    let third = line("data "@ + decimal(byte_count(data)));
    lemma_append(first + second + third, line(data), rest);
    lemma_append(first + second, third, line(data) + rest);
    lemma_append(first, second, third + (line(data) + rest));
    lemma_blob_words();
    lemma_first_line("blob"@, second + (third + (line(data) + rest)));
    lemma_blob_data(mark, data, rest);
}

proof fn lemma_reset(name: Seq<char>, rest: Seq<char>)
    requires
        !name.contains('\n'),
        rest.len() == 0 || rest[0] != '\n',
    ensures
        read_command(command_text(ImportCommand::Reset { name }) + rest) == Some(
            (ImportCommand::Reset { name }, rest),
        ),
{
    reveal_strlit("reset ");
    lemma_no_line_feed("reset "@, name);
    lemma_first_line("reset "@ + name, rest);
    lemma_after_prefix("reset "@, name);
}

/// What is to be known of the words of a commit.
proof fn lemma_commit_words(name: Seq<char>)
    ensures
        !"commit "@.contains('\n'),
        !"committer "@.contains('\n'),
        !"data 0"@.contains('\n'),
        !"reset "@.is_prefix_of("commit "@ + name),
        read_change(Seq::empty()) is None,
{
    reveal_strlit("reset ");
    reveal_strlit("commit ");
    reveal_strlit("committer ");
    reveal_strlit("data 0");
    reveal_strlit("D ");
    reveal_strlit("M 100644 :");
    assert(("commit "@ + name)[0] == 'c');
    assert("reset "@[0] == 'r');
}

proof fn lemma_commit_body(
    name: Seq<char>,
    committer: Seq<char>,
    changes: Seq<FileChange>,
    rest: Seq<char>,
)
    requires
        !committer.contains('\n'),
        forall|i: int| 0 <= i < changes.len() ==> writable_change(#[trigger] changes[i]),
    ensures
        read_commit(
            name,
            line("committer "@ + committer) + (line("data 0"@) + (changes_text(changes) + (line(
                Seq::empty(),
            ) + rest))),
        ) == Some((ImportCommand::Commit { name, committer, changes }, rest)),
{
    let end = line(Seq::empty()) + rest;
    let body = changes_text(changes) + end;
    lemma_commit_words(name);
    lemma_no_line_feed("committer "@, committer);
    lemma_first_line("committer "@ + committer, line("data 0"@) + body);
    lemma_after_prefix("committer "@, committer);
    lemma_first_line("data 0"@, body);
    lemma_first_line(Seq::empty(), rest);
    lemma_changes(changes, end);
    assert(end.skip(1) =~= rest);
}

proof fn lemma_commit(
    name: Seq<char>,
    committer: Seq<char>,
    changes: Seq<FileChange>,
    rest: Seq<char>,
)
    requires
        !name.contains('\n'),
        !committer.contains('\n'),
        forall|i: int| 0 <= i < changes.len() ==> writable_change(#[trigger] changes[i]),
    ensures
        read_command(command_text(ImportCommand::Commit { name, committer, changes }) + rest)
            == Some((ImportCommand::Commit { name, committer, changes }, rest)),
{
    let first = line("commit "@ + name);
    let second = line("committer "@ + committer);
    let third = line("data 0"@);
    let fourth = changes_text(changes);
    let end = line(Seq::empty());
    lemma_append(first + second + third + fourth, end, rest);
    lemma_append(first + second + third, fourth, end + rest);
    lemma_append(first + second, third, fourth + (end + rest));
    lemma_append(first, second, third + (fourth + (end + rest)));
    lemma_commit_words(name);
    lemma_no_line_feed("commit "@, name);
    lemma_first_line("commit "@ + name, second + (third + (fourth + (end + rest))));
    lemma_after_prefix("commit "@, name);
    lemma_commit_body(name, committer, changes, rest);
}

proof fn lemma_command(command: ImportCommand, rest: Seq<char>)
    requires
        writable(command),
        rest.len() == 0 || rest[0] != '\n',
    ensures
        read_command(command_text(command) + rest) == Some((command, rest)),
        command_text(command).len() > 0,
        command_text(command)[0] != '\n',
{
    reveal_strlit("blob");
    reveal_strlit("reset ");
    reveal_strlit("commit ");
    match command {
        ImportCommand::Blob { mark, data } => {
            lemma_blob(mark, data, rest);
            assert(command_text(command)[0] == 'b');
        },
        ImportCommand::Reset { name } => {
            lemma_reset(name, rest);
            assert(command_text(command)[0] == 'r');
        },
        ImportCommand::Commit { name, committer, changes } => {
            lemma_commit(name, committer, changes, rest);
            assert(command_text(command)[0] == 'c');
        },
    }
}

proof fn lemma_commands_text(command: ImportCommand, commands: Seq<ImportCommand>)
    ensures
        commands_text(seq![command] + commands) == command_text(command) + commands_text(commands),
    decreases commands.len(),
{
    let all = seq![command] + commands;
    if commands.len() == 0 {
        assert(all.drop_last() =~= Seq::empty());
        assert(all.last() == command);
        assert(commands_text(all.drop_last()) =~= Seq::empty());
    } else {
        assert(all.drop_last() =~= seq![command] + commands.drop_last());
        lemma_commands_text(command, commands.drop_last());
    }
    assert(commands_text(all) =~= command_text(command) + commands_text(commands));
}

/// A stream reads as the commands that it was written from, whatever the data
/// of its blobs holds.
pub proof fn law_commands_read_back(commands: Seq<ImportCommand>)
    requires
        forall|i: int| 0 <= i < commands.len() ==> writable(#[trigger] commands[i]),
    ensures
        read_commands(commands_text(commands)) == Some(commands),
        commands.len() > 0 ==> commands_text(commands).len() > 0 && commands_text(commands)[0]
            != '\n',
    decreases commands.len(),
{
    if commands.len() == 0 {
        assert(commands =~= Seq::empty());
    } else {
        let command = commands[0];
        let more = commands.drop_first();
        assert(commands =~= seq![command] + more);
        lemma_commands_text(command, more);
        law_commands_read_back(more);
        let rest = commands_text(more);
        lemma_command(command, rest);
    }
}

proof fn lemma_note_changes_are_writable(notes: Seq<(String, String)>)
    requires
        forall|i: int| 0 <= i < notes.len() ==> is_plain_path((#[trigger] notes[i]).0@),
    ensures
        forall|i: int|
            0 <= i < note_changes(notes).len() ==> writable_change(
                #[trigger] note_changes(notes)[i],
            ),
    decreases notes.len(),
{
    if notes.len() > 0 {
        let before = notes.drop_last();
        lemma_note_changes_are_writable(before);
        let n = note_changes(before).len();
        assert(is_plain_path(notes[notes.len() - 1].0@));
        assert forall|i: int| 0 <= i < note_changes(notes).len() implies writable_change(
            #[trigger] note_changes(notes)[i],
        ) by {
            if i < n {
                assert(note_changes(notes)[i] == note_changes(before)[i]);
            }
        }
    }
}

/// A stream for display reads as the commands for display, whatever the notes
/// hold, for commits that can be written as they are.
pub proof fn law_display_stream_reads_back(notes: Seq<(String, String)>)
    requires
        forall|i: int| 0 <= i < notes.len() ==> is_plain_path((#[trigger] notes[i]).0@),
    ensures
        read_commands(commands_text(display_commands(notes))) == Some(display_commands(notes)),
{
    reveal_strlit("refs/notes/ai-display");
    lemma_note_changes_are_writable(notes);
    assert(!display_ref().contains('\n'));
    reveal_strlit("git-ai <git-ai@localhost> 1000000000 +0000");
    assert(!display_committer().contains('\n'));
    law_commands_read_back(display_commands(notes));
}

} // verus!
