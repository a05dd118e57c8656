//! The stream with which `git fast-import` puts notes under a ref of their own,
//! from which `git log` can display them.
use crate::text::{decimal, decimal_string};
use vstd::prelude::*;
use vstd::string::StringExecFns;

verus! {

/// A change of one file within a commit.
pub enum FileChange {
    /// The path is taken out of the tree.
    Delete { path: Seq<char> },
    /// The blob with the mark is put at the path.
    Modify { mark: nat, path: Seq<char> },
}

/// A command of a fast-import stream.
pub enum ImportCommand {
    /// Stores data under a mark.
    Blob { mark: nat, data: Seq<char> },
    /// Starts the branch of the ref anew, with nothing in it.
    Reset { name: Seq<char> },
    /// Applies changes to the tree of the branch, with an empty message.
    Commit { name: Seq<char>, committer: Seq<char>, changes: Seq<FileChange> },
}

/// The ref that holds the notes for display.
pub open spec fn display_ref() -> Seq<char> {
    "refs/notes/ai-display"@
}

/// Who commits the notes for display, and when.
pub open spec fn display_committer() -> Seq<char> {
    "git-ai <git-ai@localhost> 1000000000 +0000"@
}

/// The number of bytes of `text` in UTF-8.
pub open spec fn byte_count(text: Seq<char>) -> nat {
    vstd::utf8::encode_utf8(text).len()
}

/// A line with `text`.
pub open spec fn line(text: Seq<char>) -> Seq<char> {
    text.push('\n')
}

/// How a change is written.
pub open spec fn change_text(change: FileChange) -> Seq<char> {
    match change {
        FileChange::Delete { path } => line("D "@ + path),
        FileChange::Modify { mark, path } => line("M 100644 :"@ + decimal(mark) + " "@ + path),
    }
}

/// How changes are written, one after the other.
pub open spec fn changes_text(changes: Seq<FileChange>) -> Seq<char>
    decreases changes.len(),
{
    if changes.len() == 0 {
        Seq::empty()
    } else {
        changes_text(changes.drop_last()) + change_text(changes.last())
    }
}

/// How a command is written. The data of a blob goes by its count of bytes, so
/// that it may hold anything; the line feed behind it is not part of it. A
/// commit ends with an empty line.
pub open spec fn command_text(command: ImportCommand) -> Seq<char> {
    match command {
        ImportCommand::Blob { mark, data } => line("blob"@) + line("mark :"@ + decimal(mark))
            + line("data "@ + decimal(byte_count(data))) + line(data),
        ImportCommand::Reset { name } => line("reset "@ + name),
        ImportCommand::Commit { name, committer, changes } => line("commit "@ + name) + line(
            "committer "@ + committer,
        ) + line("data 0"@) + changes_text(changes) + line(Seq::empty()),
    }
}

/// How commands are written, one after the other.
pub open spec fn commands_text(commands: Seq<ImportCommand>) -> Seq<char>
    decreases commands.len(),
{
    if commands.len() == 0 {
        Seq::empty()
    } else {
        commands_text(commands.drop_last()) + command_text(commands.last())
    }
}

/// The commands that store each note as a blob; the mark of a note is its
/// place, counted from one.
pub open spec fn blob_commands(notes: Seq<(String, String)>) -> Seq<ImportCommand> {
    Seq::new(notes.len(), |i: int| ImportCommand::Blob { mark: (i + 1) as nat, data: notes[i].1@ })
}

/// The changes that put each note at the path named like its commit.
pub open spec fn note_changes(notes: Seq<(String, String)>) -> Seq<FileChange>
    decreases notes.len(),
{
    if notes.len() == 0 {
        Seq::empty()
    } else {
        let path = notes.last().0@;
        note_changes(notes.drop_last()).push(FileChange::Delete { path }).push(
            FileChange::Modify { mark: notes.len(), path },
        )
    }
}

/// The commands that make the display ref hold the notes, each a pair of
/// commit and content, and nothing else.
pub open spec fn display_commands(notes: Seq<(String, String)>) -> Seq<ImportCommand> {
    blob_commands(notes).push(ImportCommand::Reset { name: display_ref() }).push(
        ImportCommand::Commit {
            name: display_ref(),
            committer: display_committer(),
            changes: note_changes(notes),
        },
    )
}

fn append_blobs(stream: &mut String, notes: &Vec<(String, String)>)
    ensures
        final(stream)@ == old(stream)@ + commands_text(blob_commands(notes@)),
{
    let ghost before = stream@;
    let n: usize = notes.len();
    let mut i: usize = 0;
    assert(blob_commands(notes@).take(0) =~= Seq::empty());
    assert(before + commands_text(Seq::empty()) =~= before);
    while i < n
        invariant
            i <= n == notes@.len(),
            stream@ == before + commands_text(blob_commands(notes@).take(i as int)),
        decreases n - i,
    {
        let ghost so_far = stream@;
        let content = &notes[i].1;
        let mark = decimal_string(i + 1);
        let count = decimal_string(content.as_str().as_bytes().len());
        stream.append("blob");
        stream.push('\n');
        stream.append("mark :");
        stream.append(mark.as_str());
        stream.push('\n');
        stream.append("data ");
        stream.append(count.as_str());
        stream.push('\n');
        stream.append(content.as_str());
        stream.push('\n');
        proof {
            let commands = blob_commands(notes@);
            let next = commands.take(i + 1);
            assert(next.drop_last() =~= commands.take(i as int));
            assert(next.last() == commands[i as int]);
            assert(count@ == decimal(byte_count(content@)));
            assert(stream@ =~= so_far + command_text(commands[i as int]));
            assert(stream@ =~= before + commands_text(next));
        }
        i = i + 1;
    }
    proof {
        assert(blob_commands(notes@).take(n as int) =~= blob_commands(notes@));
    }
}

fn append_changes(stream: &mut String, notes: &Vec<(String, String)>)
    ensures
        final(stream)@ == old(stream)@ + changes_text(note_changes(notes@)),
{
    let ghost before = stream@;
    let n: usize = notes.len();
    let mut i: usize = 0;
    assert(notes@.take(0) =~= Seq::empty());
    assert(before + changes_text(Seq::empty()) =~= before);
    while i < n
        invariant
            i <= n == notes@.len(),
            stream@ == before + changes_text(note_changes(notes@.take(i as int))),
        decreases n - i,
    {
        let ghost so_far = stream@;
        let commit_sha = &notes[i].0;
        let mark = decimal_string(i + 1);
        stream.append("D ");
        stream.append(commit_sha.as_str());
        stream.push('\n');
        stream.append("M 100644 :");
        stream.append(mark.as_str());
        stream.append(" ");
        stream.append(commit_sha.as_str());
        stream.push('\n');
        proof {
            let next = notes@.take(i + 1);
            assert(next.drop_last() =~= notes@.take(i as int));
            let path = notes@[i as int].0@;
            let changes = note_changes(next.drop_last());
            let delete = FileChange::Delete { path };
            let modify = FileChange::Modify { mark: (i + 1) as nat, path };
            assert(note_changes(next) =~= changes.push(delete).push(modify));
            assert(changes.push(delete).push(modify).drop_last() =~= changes.push(delete));
            assert(changes.push(delete).drop_last() =~= changes);
            assert(changes_text(changes.push(delete)) == changes_text(changes) + change_text(
                delete,
            ));
            assert(stream@ =~= so_far + change_text(delete) + change_text(modify));
            assert(stream@ =~= before + changes_text(note_changes(next)));
        }
        i = i + 1;
    }
    proof {
        assert(notes@.take(n as int) =~= notes@);
    }
}

/// The stream that makes the display ref hold the notes, each a pair of commit
/// and content, and nothing else.
pub fn display_stream(notes: &Vec<(String, String)>) -> (stream: String)
    ensures
        stream@ == commands_text(display_commands(notes@)),
{
    let mut stream = String::new();
    append_blobs(&mut stream, notes);
    let ghost blobs = blob_commands(notes@);
    let ghost reset = ImportCommand::Reset { name: display_ref() };
    let ghost commit = ImportCommand::Commit {
        name: display_ref(),
        committer: display_committer(),
        changes: note_changes(notes@),
    };
    assert(stream@ =~= commands_text(blobs));
    stream.append("reset ");
    stream.append("refs/notes/ai-display");
    stream.push('\n');
    proof {
        assert(blobs.push(reset).drop_last() =~= blobs);
        assert(stream@ =~= commands_text(blobs.push(reset)));
    }
    stream.append("commit ");
    stream.append("refs/notes/ai-display");
    stream.push('\n');
    stream.append("committer ");
    stream.append("git-ai <git-ai@localhost> 1000000000 +0000");
    stream.push('\n');
    stream.append("data 0");
    stream.push('\n');
    append_changes(&mut stream, notes);
    stream.push('\n');
    proof {
        assert(blobs.push(reset).push(commit).drop_last() =~= blobs.push(reset));
        assert(stream@ =~= commands_text(blobs.push(reset).push(commit)));
    }
    stream
}

} // verus!
