//! Centralized notes I/O.
//!
//! All reads and writes of authorship notes flow through this module. Each is
//! dispatched by the kind of backend: notes live in git notes (the default), or
//! in a local notes database from which they are sent to a server over HTTP.
//! With the latter, git notes are still consulted for what the database does
//! not hold.
//!
//! The repository, the database and the parser of authorship logs belong to
//! the program around this library, which performs the requests of the states
//! defined here. `E` is the type of its errors, `L` that of authorship logs.
use crate::fast_import::{commands_text, display_commands, display_stream};
use crate::step::Step;
use crate::text::{
    copied_texts, decimal, decimal_string, from_utf8_lossy, non_blank_line_list, non_blank_lines,
    output_text, texts,
};
use crate::text_map::{entry_keys, TextMap, TextSet};
use vstd::prelude::*;
use vstd::string::StringExecFns;

verus! {

/// Where authorship notes live.
#[derive(Clone, Copy, Debug, PartialEq, Eq, Structural)]
pub enum NotesBackendKind {
    /// In the notes database, from which they go to a server.
    Http,
    /// In git notes.
    GitNotes,
}

/// Why an operation on notes failed.
#[derive(Debug)]
pub enum GitAiError<E> {
    /// A failure found here, with a message.
    Generic(String),
    /// A failure of git or of the database, handed on as it is.
    Host(E),
}

impl<E> GitAiError<E> {
    /// Whether the error is a failure found here, with this message.
    pub open spec fn says(self, message: Seq<char>) -> bool {
        self matches GitAiError::Generic(text) && text@ == message
    }
}

/// A commit, its author and, where there is one, its authorship log.
#[derive(Debug)]
#[allow(inconsistent_fields)]
pub enum CommitAuthorship<L> {
    NoLog { sha: String, git_author: String },
    Log { sha: String, git_author: String, authorship_log: L },
}

/// What came of using the notes database.
#[derive(Debug)]
pub enum DbAccess<T, E> {
    /// The database could not be opened.
    NotOpened(E),
    /// The database could not be locked.
    NotLocked(String),
    /// The operation failed.
    Failed(E),
    /// The operation succeeded.
    Success(T),
}

/// What an operation on notes needs from git, the notes database or the parser
/// of authorship logs.
#[derive(Debug)]
#[allow(inconsistent_fields)]
pub enum NotesRequest<'a> {
    /// Put a note into the database, to be sent to the server.
    DbUpsert { commit_sha: &'a str, content: &'a str },
    /// Put notes, each a pair of commit and content, into the database.
    DbUpsertBatch { entries: &'a [(String, String)] },
    /// Have the pending notes of the database sent.
    SubmitNotes,
    /// The note of a commit in the database.
    DbGet { commit_sha: &'a str },
    /// The notes of those of the commits that have one in the database.
    DbGetMany { commit_shas: &'a [String] },
    /// Add a git note.
    GitAdd { commit_sha: &'a str, content: &'a str },
    /// Add git notes, each a pair of commit and content.
    GitAddBatch { entries: &'a [(String, String)] },
    /// The git note of a commit.
    GitShow { commit_sha: &'a str },
    /// The authorship log in the git note of a commit, if there is one.
    GitAuthorship { commit_sha: &'a str },
    /// The authorship log in the git note of a commit.
    GitAuthorshipV3 { commit_sha: &'a str },
    /// The blobs of the git notes of the commits.
    GitBlobOids { commit_shas: &'a [String] },
    /// Those of the commits that have a git note.
    GitWithNotes { commit_shas: &'a [String] },
    /// The commits with their authors and the logs in their git notes.
    GitFromList { commit_shas: &'a [String] },
    /// The commits whose git notes match a pattern.
    GitGrep { pattern: &'a str },
    /// Run git with these arguments.
    GitExec { args: &'a [String] },
    /// Run git with these arguments and this input.
    GitExecStdin { args: &'a [String], stdin: &'a str },
    /// The authorship log that is written in `content`.
    Deserialize { content: &'a str },
}

/// What was answered to a [`NotesRequest`].
#[derive(Debug)]
pub enum NotesReply<E, L> {
    /// To `DbUpsert` and `DbUpsertBatch`.
    Upserted(DbAccess<(), E>),
    /// To `SubmitNotes`.
    Submitted,
    /// To `DbGet`.
    Note(DbAccess<Option<String>, E>),
    /// To `DbGetMany`.
    Notes(DbAccess<TextMap<String>, E>),
    /// To `GitAdd` and `GitAddBatch`.
    Added(Result<(), E>),
    /// To `GitShow`.
    Shown(Option<String>),
    /// To `GitAuthorship`.
    Authorship(Option<L>),
    /// To `GitAuthorshipV3`.
    AuthorshipV3(Result<L, E>),
    /// To `GitBlobOids`.
    BlobOids(Result<TextMap<String>, E>),
    /// To `GitWithNotes`.
    WithNotes(Result<TextSet, E>),
    /// To `GitFromList`.
    FromList(Result<Vec<CommitAuthorship<L>>, E>),
    /// To `GitGrep`.
    Grepped(Result<Vec<String>, E>),
    /// To `GitExec`: what git wrote to its standard output.
    Output(Result<Vec<u8>, E>),
    /// To `GitExecStdin`.
    Imported(Result<(), E>),
    /// To `Deserialize`; where it fails, the message of the failure.
    Deserialized(Result<L, String>),
}

// --- The notes database ---

/// The note that the database gave; none where it could not be used.
pub open spec fn cached_note<E>(access: DbAccess<Option<String>, E>) -> Option<String> {
    match access {
        DbAccess::Success(note) => note,
        _ => None,
    }
}

/// The notes that the database gave, in the order in which it listed them;
/// none where it could not be used.
pub open spec fn cached_list<E>(access: DbAccess<TextMap<String>, E>) -> Seq<(String, String)> {
    match access {
        DbAccess::Success(notes) => notes.listed(),
        _ => Seq::empty(),
    }
}

/// The notes that the database gave, by commit; none where it could not be
/// used.
pub open spec fn cached_notes<E>(access: DbAccess<TextMap<String>, E>) -> Map<Seq<char>, String> {
    match access {
        DbAccess::Success(notes) => notes@,
        _ => Map::empty(),
    }
}

/// The note that the database gave; none where it could not be used.
pub fn http_read_note<E>(access: DbAccess<Option<String>, E>) -> (note: Option<String>)
    ensures
        note == cached_note(access),
{
    match access {
        DbAccess::Success(note) => note,
        _ => None,
    }
}

/// The notes that the database gave; none where it could not be used.
pub fn http_read_notes<E>(access: DbAccess<TextMap<String>, E>) -> (notes: TextMap<String>)
    ensures
        notes@ == cached_notes(access),
        notes.listed() == cached_list(access),
{
    match access {
        DbAccess::Success(notes) => notes,
        _ => TextMap::new(),
    }
}

/// The commits with a note that the database gave; none where it could not be
/// used.
pub fn http_check_exists<E>(access: DbAccess<TextMap<String>, E>) -> (commits: TextSet)
    ensures
        commits@ == cached_notes(access).dom(),
{
    let notes = http_read_notes(access);
    let entries = notes.entries();
    let mut commits = TextSet::new();
    let ghost keys = entry_keys(entries@);
    let n: usize = entries.len();
    let mut i: usize = 0;
    assert(commits@ =~= keys.take(0).to_set());
    while i < n
        invariant
            i <= n == entries@.len(),
            keys == entry_keys(entries@),
            commits@ == keys.take(i as int).to_set(),
        decreases n - i,
    {
        commits.insert(entries[i].0.clone());
        proof {
            let before = keys.take(i as int);
            let after = keys.take(i + 1);
            assert(after =~= before.push(keys[i as int]));
            assert forall|key: Seq<char>|
                after.contains(key) <==> before.contains(key) || key == keys[i as int] by {
                if before.contains(key) {
                    assert(after[before.index_of(key)] == key);
                }
                assert(after[i as int] == keys[i as int]);
            }
            assert(after.to_set() =~= before.to_set().insert(keys[i as int]));
        }
        i = i + 1;
    }
    proof {
        assert(keys.take(n as int) =~= keys);
        assert(notes@.dom() =~= keys.to_set());
    }
    commits
}

/// The failure of a write to the database.
pub open spec fn write_failure<E>(access: DbAccess<(), E>, error: GitAiError<E>) -> bool {
    match access {
        DbAccess::NotOpened(e) => error == GitAiError::Host(e),
        DbAccess::NotLocked(message) => error.says("notes-db lock: "@ + message@),
        DbAccess::Failed(e) => error == GitAiError::Host(e),
        DbAccess::Success(_) => false,
    }
}

fn http_write_result<E>(access: DbAccess<(), E>) -> (result: Result<(), GitAiError<E>>)
    ensures
        match result {
            Ok(()) => access is Success,
            Err(error) => write_failure(access, error),
        },
{
    match access {
        DbAccess::NotOpened(e) => Err(GitAiError::Host(e)),
        DbAccess::NotLocked(message) => {
            let mut text = "notes-db lock: ".to_string();
            text.append(message.as_str());
            Err(GitAiError::Generic(text))
        },
        DbAccess::Failed(e) => Err(GitAiError::Host(e)),
        DbAccess::Success(()) => Ok(()),
    }
}

// --- Writes ---

/// A write of notes under way.
#[derive(Debug)]
#[allow(inconsistent_fields)]
pub enum NotesWrite<'a> {
    /// A note goes to the database.
    Db { commit_sha: &'a str, content: &'a str },
    /// Several notes go to the database.
    DbBatch { entries: &'a [(String, String)] },
    /// The database holds the notes; they are to be sent.
    Submit,
    /// A note goes to git.
    Git { commit_sha: &'a str, content: &'a str },
    /// Several notes go to git.
    GitBatch { entries: &'a [(String, String)] },
}

/// How a write of notes stands.
pub type NotesWriteStep<'a, E> = Step<NotesWrite<'a>, Result<(), GitAiError<E>>>;

impl<'a> NotesWrite<'a> {
    /// What the write needs next.
    pub open spec fn pending(self) -> NotesRequest<'a> {
        match self {
            NotesWrite::Db { commit_sha, content } => NotesRequest::DbUpsert {
                commit_sha,
                content,
            },
            NotesWrite::DbBatch { entries } => NotesRequest::DbUpsertBatch { entries },
            NotesWrite::Submit => NotesRequest::SubmitNotes,
            NotesWrite::Git { commit_sha, content } => NotesRequest::GitAdd { commit_sha, content },
            NotesWrite::GitBatch { entries } => NotesRequest::GitAddBatch { entries },
        }
    }

    /// Whether `step` is how the write goes on after `reply`. Notes are sent
    /// only once the database holds them.
    pub open spec fn goes_on<E, L>(
        self,
        reply: NotesReply<E, L>,
        step: NotesWriteStep<'a, E>,
    ) -> bool {
        match (self, reply) {
            (NotesWrite::Db { .. }, NotesReply::Upserted(access))
            | (NotesWrite::DbBatch { .. }, NotesReply::Upserted(access)) => match step {
                Step::Ask(next) => access is Success && next == NotesWrite::<'a>::Submit,
                Step::Done(Ok(())) => false,
                Step::Done(Err(error)) => write_failure(access, error),
            },
            (NotesWrite::Submit, NotesReply::Submitted) => step == NotesWriteStep::<'a, E>::Done(
                Ok(()),
            ),
            (NotesWrite::Git { .. }, NotesReply::Added(result))
            | (NotesWrite::GitBatch { .. }, NotesReply::Added(result)) => match result {
                Ok(()) => step == NotesWriteStep::<'a, E>::Done(Ok(())),
                Err(e) => step == NotesWriteStep::<'a, E>::Done(Err(GitAiError::Host(e))),
            },
            _ => step == NotesWriteStep::<'a, E>::Ask(self),
        }
    }

    /// What the write needs next.
    pub fn request(&self) -> (request: NotesRequest<'a>)
        ensures
            request == self.pending(),
    {
        match self {
            NotesWrite::Db { commit_sha, content } => NotesRequest::DbUpsert {
                commit_sha,
                content,
            },
            NotesWrite::DbBatch { entries } => NotesRequest::DbUpsertBatch { entries },
            NotesWrite::Submit => NotesRequest::SubmitNotes,
            NotesWrite::Git { commit_sha, content } => NotesRequest::GitAdd { commit_sha, content },
            NotesWrite::GitBatch { entries } => NotesRequest::GitAddBatch { entries },
        }
    }

    /// Goes on with what was answered.
    pub fn resume<E, L>(self, reply: NotesReply<E, L>) -> (step: NotesWriteStep<'a, E>)
        ensures
            self.goes_on(reply, step),
    {
        match (self, reply) {
            (NotesWrite::Db { .. }, NotesReply::Upserted(access))
            | (NotesWrite::DbBatch { .. }, NotesReply::Upserted(access)) => {
                match http_write_result(access) {
                    Ok(()) => Step::Ask(NotesWrite::Submit),
                    Err(error) => Step::Done(Err(error)),
                }
            },
            (NotesWrite::Submit, NotesReply::Submitted) => Step::Done(Ok(())),
            (NotesWrite::Git { .. }, NotesReply::Added(result))
            | (NotesWrite::GitBatch { .. }, NotesReply::Added(result)) => match result {
                Ok(()) => Step::Done(Ok(())),
                Err(e) => Step::Done(Err(GitAiError::Host(e))),
            },
            (state, _) => Step::Ask(state),
        }
    }
}

/// Begins to write a note into the database.
pub fn http_write_note<'a, E>(commit_sha: &'a str, content: &'a str) -> (step: NotesWriteStep<
    'a,
    E,
>)
    ensures
        step == NotesWriteStep::<'a, E>::Ask(NotesWrite::Db { commit_sha, content }),
{
    Step::Ask(NotesWrite::Db { commit_sha, content })
}

/// Begins to write notes, each a pair of commit and content, into the database.
pub fn http_write_batch<'a, E>(entries: &'a [(String, String)]) -> (step: NotesWriteStep<'a, E>)
    ensures
        step == NotesWriteStep::<'a, E>::Ask(NotesWrite::DbBatch { entries }),
{
    Step::Ask(NotesWrite::DbBatch { entries })
}

/// Where a note goes when it is written.
pub open spec fn first_of_write<'a>(
    kind: NotesBackendKind,
    commit_sha: &'a str,
    content: &'a str,
) -> NotesWrite<'a> {
    match kind {
        NotesBackendKind::Http => NotesWrite::Db { commit_sha, content },
        NotesBackendKind::GitNotes => NotesWrite::Git { commit_sha, content },
    }
}

/// Begins to write the note of a commit.
pub fn write_note<'a, E>(kind: NotesBackendKind, commit_sha: &'a str, content: &'a str) -> (step:
    NotesWriteStep<'a, E>)
    ensures
        step == NotesWriteStep::<'a, E>::Ask(first_of_write(kind, commit_sha, content)),
{
    match kind {
        NotesBackendKind::Http => http_write_note(commit_sha, content),
        NotesBackendKind::GitNotes => Step::Ask(NotesWrite::Git { commit_sha, content }),
    }
}

/// Where a batch of notes goes when it is written.
pub open spec fn first_of_batch<'a>(
    kind: NotesBackendKind,
    entries: &'a [(String, String)],
) -> NotesWrite<'a> {
    match kind {
        NotesBackendKind::Http => NotesWrite::DbBatch { entries },
        NotesBackendKind::GitNotes => NotesWrite::GitBatch { entries },
    }
}

/// Begins to write notes, each a pair of commit and content. Without any, there
/// is nothing to do.
pub fn write_notes_batch<'a, E>(kind: NotesBackendKind, entries: &'a [(String, String)]) -> (step:
    NotesWriteStep<'a, E>)
    ensures
        step == (if entries@.len() == 0 {
            NotesWriteStep::<'a, E>::Done(Ok(()))
        } else {
            NotesWriteStep::<'a, E>::Ask(first_of_batch(kind, entries))
        }),
{
    if entries.len() == 0 {
        return Step::Done(Ok(()));
    }
    match kind {
        NotesBackendKind::Http => http_write_batch(entries),
        NotesBackendKind::GitNotes => Step::Ask(NotesWrite::GitBatch { entries }),
    }
}

// --- Reads ---

/// A read of the note of a commit under way.
#[derive(Debug)]
#[allow(inconsistent_fields)]
pub enum NoteRead<'a> {
    /// The database is asked.
    Db { commit_sha: &'a str },
    /// Git is asked.
    Git { commit_sha: &'a str },
}

/// How a read of the note of a commit stands.
pub type NoteReadStep<'a> = Step<NoteRead<'a>, Option<String>>;

impl<'a> NoteRead<'a> {
    /// What the read needs next.
    pub open spec fn pending(self) -> NotesRequest<'a> {
        match self {
            NoteRead::Db { commit_sha } => NotesRequest::DbGet { commit_sha },
            NoteRead::Git { commit_sha } => NotesRequest::GitShow { commit_sha },
        }
    }

    /// How the read goes on after `reply`. What the database does not give is
    /// looked for in git.
    pub open spec fn then_step<E, L>(self, reply: NotesReply<E, L>) -> NoteReadStep<'a> {
        match (self, reply) {
            (NoteRead::Db { commit_sha }, NotesReply::Note(access)) => match cached_note(access) {
                Some(content) => Step::Done(Some(content)),
                None => Step::Ask(NoteRead::Git { commit_sha }),
            },
            (NoteRead::Git { .. }, NotesReply::Shown(note)) => Step::Done(note),
            _ => Step::Ask(self),
        }
    }

    /// What the read needs next.
    pub fn request(&self) -> (request: NotesRequest<'a>)
        ensures
            request == self.pending(),
    {
        match self {
            NoteRead::Db { commit_sha } => NotesRequest::DbGet { commit_sha },
            NoteRead::Git { commit_sha } => NotesRequest::GitShow { commit_sha },
        }
    }

    /// Goes on with what was answered.
    pub fn resume<E, L>(self, reply: NotesReply<E, L>) -> (step: NoteReadStep<'a>)
        ensures
            step == self.then_step(reply),
    {
        match (self, reply) {
            (NoteRead::Db { commit_sha }, NotesReply::Note(access)) => {
                match http_read_note(access) {
                    Some(content) => Step::Done(Some(content)),
                    None => Step::Ask(NoteRead::Git { commit_sha }),
                }
            },
            (NoteRead::Git { .. }, NotesReply::Shown(note)) => Step::Done(note),
            (state, _) => Step::Ask(state),
        }
    }
}

/// Where the note of a commit is first looked for.
pub open spec fn first_of_read<'a>(kind: NotesBackendKind, commit_sha: &'a str) -> NoteRead<'a> {
    match kind {
        NotesBackendKind::Http => NoteRead::Db { commit_sha },
        NotesBackendKind::GitNotes => NoteRead::Git { commit_sha },
    }
}

/// Begins to read the note of a commit.
pub fn read_note<'a>(kind: NotesBackendKind, commit_sha: &'a str) -> (step: NoteReadStep<'a>)
    ensures
        step == NoteReadStep::<'a>::Ask(first_of_read(kind, commit_sha)),
{
    match kind {
        NotesBackendKind::Http => Step::Ask(NoteRead::Db { commit_sha }),
        NotesBackendKind::GitNotes => Step::Ask(NoteRead::Git { commit_sha }),
    }
}

/// A read of the authorship log of a commit under way.
#[derive(Debug)]
#[allow(inconsistent_fields)]
pub enum AuthorshipRead<'a> {
    /// The database is asked.
    Db { commit_sha: &'a str },
    /// The database gave a note, from which the log is to be read.
    Parse { content: String },
    /// Git is asked.
    Git { commit_sha: &'a str },
}

/// How a read of the authorship log of a commit stands.
pub type AuthorshipReadStep<'a, L> = Step<AuthorshipRead<'a>, Option<L>>;

impl<'a> AuthorshipRead<'a> {
    /// Whether `request` is what the read needs next.
    pub open spec fn needs(self, request: NotesRequest) -> bool {
        match self {
            AuthorshipRead::Db { commit_sha } => request == (NotesRequest::DbGet { commit_sha }),
            AuthorshipRead::Parse { content } => {
                request matches NotesRequest::Deserialize { content: text } && text@ == content@
            },
            AuthorshipRead::Git { commit_sha } => request == (NotesRequest::GitAuthorship {
                commit_sha,
            }),
        }
    }

    /// How the read goes on after `reply`. A note in the database decides, even
    /// where no log can be read from it; without one, git is asked.
    pub open spec fn then_step<E, L>(self, reply: NotesReply<E, L>) -> AuthorshipReadStep<'a, L> {
        match (self, reply) {
            (AuthorshipRead::Db { commit_sha }, NotesReply::Note(access)) => {
                match cached_note(access) {
                    Some(content) => Step::Ask(AuthorshipRead::Parse { content }),
                    None => Step::Ask(AuthorshipRead::Git { commit_sha }),
                }
            },
            (AuthorshipRead::Parse { .. }, NotesReply::Deserialized(result)) => Step::Done(
                match result {
                    Ok(log) => Some(log),
                    Err(_) => None,
                },
            ),
            (AuthorshipRead::Git { .. }, NotesReply::Authorship(log)) => Step::Done(log),
            _ => Step::Ask(self),
        }
    }

    /// What the read needs next.
    pub fn request(&self) -> (request: NotesRequest<'_>)
        ensures
            self.needs(request),
    {
        match self {
            AuthorshipRead::Db { commit_sha } => NotesRequest::DbGet { commit_sha },
            AuthorshipRead::Parse { content } => NotesRequest::Deserialize {
                content: content.as_str(),
            },
            AuthorshipRead::Git { commit_sha } => NotesRequest::GitAuthorship { commit_sha },
        }
    }

    /// Goes on with what was answered.
    pub fn resume<E, L>(self, reply: NotesReply<E, L>) -> (step: AuthorshipReadStep<'a, L>)
        ensures
            step == self.then_step(reply),
    {
        match (self, reply) {
            (AuthorshipRead::Db { commit_sha }, NotesReply::Note(access)) => {
                match http_read_note(access) {
                    Some(content) => Step::Ask(AuthorshipRead::Parse { content }),
                    None => Step::Ask(AuthorshipRead::Git { commit_sha }),
                }
            },
            (AuthorshipRead::Parse { .. }, NotesReply::Deserialized(result)) => match result {
                Ok(log) => Step::Done(Some(log)),
                Err(_) => Step::Done(None),
            },
            (AuthorshipRead::Git { .. }, NotesReply::Authorship(log)) => Step::Done(log),
            (state, _) => Step::Ask(state),
        }
    }
}

/// Where the authorship log of a commit is first looked for.
pub open spec fn first_of_authorship<'a>(
    kind: NotesBackendKind,
    commit_sha: &'a str,
) -> AuthorshipRead<'a> {
    match kind {
        NotesBackendKind::Http => AuthorshipRead::Db { commit_sha },
        NotesBackendKind::GitNotes => AuthorshipRead::Git { commit_sha },
    }
}

/// Begins to read the authorship log of a commit.
pub fn read_authorship<'a, L>(kind: NotesBackendKind, commit_sha: &'a str) -> (step:
    AuthorshipReadStep<'a, L>)
    ensures
        step == AuthorshipReadStep::<'a, L>::Ask(first_of_authorship(kind, commit_sha)),
{
    match kind {
        NotesBackendKind::Http => Step::Ask(AuthorshipRead::Db { commit_sha }),
        NotesBackendKind::GitNotes => Step::Ask(AuthorshipRead::Git { commit_sha }),
    }
}

/// A read of the authorship log of a commit that has to have one, under way.
#[derive(Debug)]
#[allow(inconsistent_fields)]
pub enum AuthorshipV3Read<'a> {
    /// The database is asked.
    Db { commit_sha: &'a str },
    /// The database gave a note, from which the log is to be read.
    Parse { content: String },
    /// Git is asked.
    Git { commit_sha: &'a str },
}

/// How a read of the authorship log of a commit that has to have one stands.
pub type AuthorshipV3ReadStep<'a, E, L> = Step<AuthorshipV3Read<'a>, Result<L, GitAiError<E>>>;

impl<'a> AuthorshipV3Read<'a> {
    /// Whether `request` is what the read needs next.
    pub open spec fn needs(self, request: NotesRequest) -> bool {
        match self {
            AuthorshipV3Read::Db { commit_sha } => request == (NotesRequest::DbGet { commit_sha }),
            AuthorshipV3Read::Parse { content } => {
                request matches NotesRequest::Deserialize { content: text } && text@ == content@
            },
            AuthorshipV3Read::Git { commit_sha } => request == (NotesRequest::GitAuthorshipV3 {
                commit_sha,
            }),
        }
    }

    /// Whether `step` is how the read goes on after `reply`. A note in the
    /// database decides, even where no log can be read from it; without one,
    /// git is asked.
    pub open spec fn goes_on<E, L>(
        self,
        reply: NotesReply<E, L>,
        step: AuthorshipV3ReadStep<'a, E, L>,
    ) -> bool {
        match (self, reply) {
            (AuthorshipV3Read::Db { commit_sha }, NotesReply::Note(access)) => {
                match cached_note(access) {
                    Some(content) => step == AuthorshipV3ReadStep::<'a, E, L>::Ask(
                        AuthorshipV3Read::Parse { content },
                    ),
                    None => step == AuthorshipV3ReadStep::<'a, E, L>::Ask(
                        AuthorshipV3Read::Git { commit_sha },
                    ),
                }
            },
            (AuthorshipV3Read::Parse { .. }, NotesReply::Deserialized(result)) => match result {
                Ok(log) => step == AuthorshipV3ReadStep::<'a, E, L>::Done(Ok(log)),
                Err(message) => step matches Step::Done(Err(error)) && error.says(
                    "notes deserialization error: "@ + message@,
                ),
            },
            (AuthorshipV3Read::Git { .. }, NotesReply::AuthorshipV3(result)) => match result {
                Ok(log) => step == AuthorshipV3ReadStep::<'a, E, L>::Done(Ok(log)),
                Err(e) => step == AuthorshipV3ReadStep::<'a, E, L>::Done(Err(GitAiError::Host(e))),
            },
            _ => step == AuthorshipV3ReadStep::<'a, E, L>::Ask(self),
        }
    }

    /// What the read needs next.
    pub fn request(&self) -> (request: NotesRequest<'_>)
        ensures
            self.needs(request),
    {
        match self {
            AuthorshipV3Read::Db { commit_sha } => NotesRequest::DbGet { commit_sha },
            AuthorshipV3Read::Parse { content } => NotesRequest::Deserialize {
                content: content.as_str(),
            },
            AuthorshipV3Read::Git { commit_sha } => NotesRequest::GitAuthorshipV3 { commit_sha },
        }
    }

    /// Goes on with what was answered.
    pub fn resume<E, L>(self, reply: NotesReply<E, L>) -> (step: AuthorshipV3ReadStep<'a, E, L>)
        ensures
            self.goes_on(reply, step),
    {
        match (self, reply) {
            (AuthorshipV3Read::Db { commit_sha }, NotesReply::Note(access)) => {
                match http_read_note(access) {
                    Some(content) => Step::Ask(AuthorshipV3Read::Parse { content }),
                    None => Step::Ask(AuthorshipV3Read::Git { commit_sha }),
                }
            },
            (AuthorshipV3Read::Parse { .. }, NotesReply::Deserialized(result)) => match result {
                Ok(log) => Step::Done(Ok(log)),
                Err(message) => {
                    let mut text = "notes deserialization error: ".to_string();
                    text.append(message.as_str());
                    Step::Done(Err(GitAiError::Generic(text)))
                },
            },
            (AuthorshipV3Read::Git { .. }, NotesReply::AuthorshipV3(result)) => match result {
                Ok(log) => Step::Done(Ok(log)),
                Err(e) => Step::Done(Err(GitAiError::Host(e))),
            },
            (state, _) => Step::Ask(state),
        }
    }
}

/// Where the authorship log of a commit that has to have one is first looked
/// for.
pub open spec fn first_of_authorship_v3<'a>(
    kind: NotesBackendKind,
    commit_sha: &'a str,
) -> AuthorshipV3Read<'a> {
    match kind {
        NotesBackendKind::Http => AuthorshipV3Read::Db { commit_sha },
        NotesBackendKind::GitNotes => AuthorshipV3Read::Git { commit_sha },
    }
}

/// Begins to read the authorship log of a commit that has to have one.
pub fn read_authorship_v3<'a, E, L>(kind: NotesBackendKind, commit_sha: &'a str) -> (step:
    AuthorshipV3ReadStep<'a, E, L>)
    ensures
        step == AuthorshipV3ReadStep::<'a, E, L>::Ask(first_of_authorship_v3(kind, commit_sha)),
{
    match kind {
        NotesBackendKind::Http => Step::Ask(AuthorshipV3Read::Db { commit_sha }),
        NotesBackendKind::GitNotes => Step::Ask(AuthorshipV3Read::Git { commit_sha }),
    }
}

/// A read of the note blobs of commits under way: git is asked.
#[derive(Debug)]
pub struct BlobOidsRead<'a> {
    pub commit_shas: &'a [String],
}

/// How a read of the note blobs of commits stands.
pub type BlobOidsReadStep<'a, E> = Step<BlobOidsRead<'a>, Result<TextMap<String>, GitAiError<E>>>;

impl<'a> BlobOidsRead<'a> {
    /// What the read needs next.
    pub open spec fn pending(self) -> NotesRequest<'a> {
        NotesRequest::GitBlobOids { commit_shas: self.commit_shas }
    }

    /// How the read goes on after `reply`.
    pub open spec fn then_step<E, L>(self, reply: NotesReply<E, L>) -> BlobOidsReadStep<'a, E> {
        match reply {
            NotesReply::BlobOids(Ok(oids)) => Step::Done(Ok(oids)),
            NotesReply::BlobOids(Err(e)) => Step::Done(Err(GitAiError::Host(e))),
            _ => Step::Ask(self),
        }
    }

    /// What the read needs next.
    pub fn request(&self) -> (request: NotesRequest<'a>)
        ensures
            request == self.pending(),
    {
        NotesRequest::GitBlobOids { commit_shas: self.commit_shas }
    }

    /// Goes on with what was answered.
    pub fn resume<E, L>(self, reply: NotesReply<E, L>) -> (step: BlobOidsReadStep<'a, E>)
        ensures
            step == self.then_step(reply),
    {
        match reply {
            NotesReply::BlobOids(Ok(oids)) => Step::Done(Ok(oids)),
            NotesReply::BlobOids(Err(e)) => Step::Done(Err(GitAiError::Host(e))),
            _ => Step::Ask(self),
        }
    }
}

/// Begins to read a map from commit to the identifier of its note blob in git.
///
/// Callers use the identifiers to read blobs, so they have to be real ones. In
/// the database notes are no git blobs: there the map is empty, which callers
/// take as notes that are not in git. They then read the notes themselves.
pub fn read_note_blob_oids<'a, E>(kind: NotesBackendKind, commit_shas: &'a [String]) -> (step:
    BlobOidsReadStep<'a, E>)
    ensures
        match kind {
            NotesBackendKind::Http => step matches Step::Done(Ok(oids)) && oids@ == Map::<
                Seq<char>,
                String,
            >::empty(),
            NotesBackendKind::GitNotes => step == BlobOidsReadStep::<'a, E>::Ask(
                BlobOidsRead { commit_shas },
            ),
        },
{
    match kind {
        NotesBackendKind::Http => Step::Done(Ok(TextMap::new())),
        NotesBackendKind::GitNotes => Step::Ask(BlobOidsRead { commit_shas }),
    }
}

/// Those of the commits that are not in `known`.
pub open spec fn commits_outside(commit_shas: Seq<String>, known: Set<Seq<char>>) -> Seq<String> {
    commit_shas.filter(|sha: String| !known.contains(sha@))
}

fn missing_commits(commit_shas: &[String], known: &TextSet) -> (missing: Vec<String>)
    ensures
        missing@ == commits_outside(commit_shas@, known@),
{
    let ghost outside = |sha: String| !known@.contains(sha@);
    let mut missing: Vec<String> = Vec::new();
    let n: usize = commit_shas.len();
    let mut i: usize = 0;
    proof {
        reveal(Seq::filter);
        assert(missing@ =~= commit_shas@.take(0).filter(outside));
    }
    while i < n
        invariant
            i <= n == commit_shas@.len(),
            outside == (|sha: String| !known@.contains(sha@)),
            missing@ == commit_shas@.take(i as int).filter(outside),
        decreases n - i,
    {
        proof {
            reveal(Seq::filter);
            assert(commit_shas@.take(i + 1).drop_last() =~= commit_shas@.take(i as int));
        }
        if !known.contains(&commit_shas[i]) {
            missing.push(commit_shas[i].clone());
        }
        i = i + 1;
    }
    proof {
        assert(commit_shas@.take(n as int) =~= commit_shas@);
    }
    missing
}

fn add_all(commits: TextSet, more: &TextSet) -> (all: TextSet)
    ensures
        all@ == commits@.union(more@),
{
    let mut all = commits;
    let items = more.items();
    let ghost members = texts(items@);
    let n: usize = items.len();
    let mut i: usize = 0;
    assert(all@ =~= commits@.union(members.take(0).to_set()));
    while i < n
        invariant
            i <= n == items@.len(),
            members == texts(items@),
            all@ == commits@.union(members.take(i as int).to_set()),
        decreases n - i,
    {
        all.insert(items[i].clone());
        proof {
            let before = members.take(i as int);
            let after = members.take(i + 1);
            assert(after =~= before.push(members[i as int]));
            assert forall|text: Seq<char>|
                after.contains(text) <==> before.contains(text) || text == members[i as int] by {
                if before.contains(text) {
                    assert(after[before.index_of(text)] == text);
                }
                assert(after[i as int] == members[i as int]);
            }
            assert(all@ =~= commits@.union(after.to_set()));
        }
        i = i + 1;
    }
    proof {
        assert(members.take(n as int) =~= members);
    }
    all
}

/// A search for the commits that have a note, under way.
#[derive(Debug)]
#[allow(inconsistent_fields)]
pub enum WithNotesRead<'a> {
    /// The database is asked.
    Db { commit_shas: &'a [String] },
    /// Git is asked for the commits that are not in the database.
    Missing { cached: TextSet, missing: Vec<String> },
    /// Git is asked.
    Git { commit_shas: &'a [String] },
}

/// How a search for the commits that have a note stands.
pub type WithNotesReadStep<'a, E> = Step<WithNotesRead<'a>, Result<TextSet, GitAiError<E>>>;

/// Whether the search is over and has found the `commits`.
pub open spec fn found_commits<E>(step: WithNotesReadStep<E>, commits: Set<Seq<char>>) -> bool {
    step matches Step::Done(Ok(found)) && found@ == commits
}

impl<'a> WithNotesRead<'a> {
    /// Whether `request` is what the search needs next.
    pub open spec fn needs(self, request: NotesRequest) -> bool {
        match self {
            WithNotesRead::Db { commit_shas } => request == (NotesRequest::DbGetMany {
                commit_shas,
            }),
            WithNotesRead::Missing { missing, .. } => {
                request matches NotesRequest::GitWithNotes { commit_shas } && commit_shas@
                    == missing@
            },
            WithNotesRead::Git { commit_shas } => request == (NotesRequest::GitWithNotes {
                commit_shas,
            }),
        }
    }

    /// Whether `step` is how the search goes on after `reply`. Where the
    /// database has as many notes as there are commits, git is not asked.
    pub open spec fn goes_on<E, L>(
        self,
        reply: NotesReply<E, L>,
        step: WithNotesReadStep<'a, E>,
    ) -> bool {
        match (self, reply) {
            (WithNotesRead::Db { commit_shas }, NotesReply::Notes(access)) => {
                let known = cached_notes(access).dom();
                if known.len() == commit_shas@.len() {
                    found_commits(step, known)
                } else {
                    &&& step matches Step::Ask(WithNotesRead::Missing { cached, missing })
                    &&& cached@ == known
                    &&& missing@ == commits_outside(commit_shas@, known)
                }
            },
            (WithNotesRead::Missing { cached, .. }, NotesReply::WithNotes(result)) => match result {
                Ok(from_git) => found_commits(step, cached@.union(from_git@)),
                Err(e) => step == WithNotesReadStep::<'a, E>::Done(Err(GitAiError::Host(e))),
            },
            (WithNotesRead::Git { .. }, NotesReply::WithNotes(result)) => match result {
                Ok(from_git) => found_commits(step, from_git@),
                Err(e) => step == WithNotesReadStep::<'a, E>::Done(Err(GitAiError::Host(e))),
            },
            _ => step == WithNotesReadStep::<'a, E>::Ask(self),
        }
    }

    /// What the search needs next.
    pub fn request(&self) -> (request: NotesRequest<'_>)
        ensures
            self.needs(request),
    {
        match self {
            WithNotesRead::Db { commit_shas } => NotesRequest::DbGetMany { commit_shas },
            WithNotesRead::Missing { missing, .. } => NotesRequest::GitWithNotes {
                commit_shas: missing.as_slice(),
            },
            WithNotesRead::Git { commit_shas } => NotesRequest::GitWithNotes { commit_shas },
        }
    }

    /// Goes on with what was answered.
    pub fn resume<E, L>(self, reply: NotesReply<E, L>) -> (step: WithNotesReadStep<'a, E>)
        ensures
            self.goes_on(reply, step),
    {
        match (self, reply) {
            (WithNotesRead::Db { commit_shas }, NotesReply::Notes(access)) => {
                let cached = http_check_exists(access);
                if cached.len() == commit_shas.len() {
                    Step::Done(Ok(cached))
                } else {
                    let missing = missing_commits(commit_shas, &cached);
                    Step::Ask(WithNotesRead::Missing { cached, missing })
                }
            },
            (WithNotesRead::Missing { cached, .. }, NotesReply::WithNotes(result)) => match result {
                Ok(from_git) => Step::Done(Ok(add_all(cached, &from_git))),
                Err(e) => Step::Done(Err(GitAiError::Host(e))),
            },
            (WithNotesRead::Git { .. }, NotesReply::WithNotes(result)) => match result {
                Ok(from_git) => Step::Done(Ok(from_git)),
                Err(e) => Step::Done(Err(GitAiError::Host(e))),
            },
            (state, _) => Step::Ask(state),
        }
    }
}

/// Where commits with a note are first looked for.
pub open spec fn first_of_search<'a>(
    kind: NotesBackendKind,
    commit_shas: &'a [String],
) -> WithNotesRead<'a> {
    match kind {
        NotesBackendKind::Http => WithNotesRead::Db { commit_shas },
        NotesBackendKind::GitNotes => WithNotesRead::Git { commit_shas },
    }
}

/// Begins to search for those of the commits that have a note.
pub fn commits_with_notes<'a, E>(kind: NotesBackendKind, commit_shas: &'a [String]) -> (step:
    WithNotesReadStep<'a, E>)
    ensures
        step == WithNotesReadStep::<'a, E>::Ask(first_of_search(kind, commit_shas)),
{
    match kind {
        NotesBackendKind::Http => Step::Ask(WithNotesRead::Db { commit_shas }),
        NotesBackendKind::GitNotes => Step::Ask(WithNotesRead::Git { commit_shas }),
    }
}

/// The commit of an entry.
pub open spec fn entry_sha<L>(entry: CommitAuthorship<L>) -> String {
    match entry {
        CommitAuthorship::NoLog { sha, .. } => sha,
        CommitAuthorship::Log { sha, .. } => sha,
    }
}

/// The author of an entry.
pub open spec fn entry_author<L>(entry: CommitAuthorship<L>) -> String {
    match entry {
        CommitAuthorship::NoLog { git_author, .. } => git_author,
        CommitAuthorship::Log { git_author, .. } => git_author,
    }
}

/// Whether the entry has no log, and its commit a note among `cached`.
pub open spec fn promotable<L>(
    entry: CommitAuthorship<L>,
    cached: Map<Seq<char>, String>,
) -> bool {
    entry is NoLog && cached.contains_key(entry_sha(entry)@)
}

/// The entry with the log that was read for it, if one was.
pub open spec fn promoted<L>(
    entry: CommitAuthorship<L>,
    result: Result<L, String>,
) -> CommitAuthorship<L> {
    match result {
        Ok(authorship_log) => CommitAuthorship::Log {
            sha: entry_sha(entry),
            git_author: entry_author(entry),
            authorship_log,
        },
        Err(_) => entry,
    }
}

/// The first promotable entry from `i` on; the number of entries where there
/// is none.
pub open spec fn first_promotable<L>(
    entries: Seq<CommitAuthorship<L>>,
    cached: Map<Seq<char>, String>,
    i: int,
) -> int
    decreases entries.len() - i,
{
    if i >= entries.len() {
        entries.len() as int
    } else if promotable(entries[i], cached) {
        i
    } else {
        first_promotable(entries, cached, i + 1)
    }
}

/// Entries whose notes in the database are being read, up to the one whose note
/// is next.
#[derive(Debug)]
pub struct Promotion<L> {
    cached: TextMap<String>,
    entries: Vec<CommitAuthorship<L>>,
    next: usize,
}

impl<L> Promotion<L> {
    #[verifier::type_invariant]
    spec fn at_a_promotable_entry(self) -> bool {
        &&& self.next < self.entries@.len()
        &&& promotable(self.entries@[self.next as int], self.cached@)
    }

    /// The notes of the database, by commit.
    pub closed spec fn cached(self) -> Map<Seq<char>, String> {
        self.cached@
    }

    /// The entries, with the logs read so far.
    pub closed spec fn entries(self) -> Seq<CommitAuthorship<L>> {
        self.entries@
    }

    /// The place of the entry whose note is next.
    pub closed spec fn next(self) -> int {
        self.next as int
    }

    /// The note that is next.
    pub open spec fn note(self) -> Seq<char> {
        self.cached()[entry_sha(self.entries()[self.next()])@]@
    }
}

/// A read of commits with their authors and authorship logs, under way.
#[derive(Debug)]
#[allow(inconsistent_fields)]
pub enum FilterRead<'a, L> {
    /// The database is asked.
    Db { commit_shas: &'a [String] },
    /// Git is asked for the commits, which have no logs where the notes are in
    /// the database.
    List { cached: TextMap<String>, commit_shas: &'a [String] },
    /// A log is to be read from a note of the database.
    Parse { promotion: Promotion<L> },
    /// Git is asked.
    Git { commit_shas: &'a [String] },
}

/// How a read of commits with their authors and authorship logs stands.
pub type FilterReadStep<'a, E, L> = Step<
    FilterRead<'a, L>,
    Result<Vec<CommitAuthorship<L>>, GitAiError<E>>,
>;

/// Whether the read turns to the first promotable entry from `i` on, or is over
/// where there is none.
pub open spec fn promotes_from<E, L>(
    step: FilterReadStep<E, L>,
    cached: Map<Seq<char>, String>,
    entries: Seq<CommitAuthorship<L>>,
    i: int,
) -> bool {
    let next = first_promotable(entries, cached, i);
    if next < entries.len() {
        &&& step matches Step::Ask(FilterRead::Parse { promotion })
        &&& promotion.cached() == cached
        &&& promotion.entries() == entries
        &&& promotion.next() == next
    } else {
        step matches Step::Done(Ok(result)) && result@ == entries
    }
}

fn promote_from<'a, E, L>(
    cached: TextMap<String>,
    entries: Vec<CommitAuthorship<L>>,
    start: usize,
) -> (step: FilterReadStep<'a, E, L>)
    requires
        start <= entries@.len(),
    ensures
        promotes_from(step, cached@, entries@, start as int),
{
    let n: usize = entries.len();
    let mut i: usize = start;
    while i < n
        invariant
            i <= n == entries@.len(),
            first_promotable(entries@, cached@, start as int) == first_promotable(
                entries@,
                cached@,
                i as int,
            ),
        decreases n - i,
    {
        match &entries[i] {
            CommitAuthorship::NoLog { sha, .. } => {
                if cached.get(sha).is_some() {
                    return Step::Ask(
                        FilterRead::Parse { promotion: Promotion { cached, entries, next: i } },
                    );
                }
            },
            CommitAuthorship::Log { .. } => {},
        }
        i = i + 1;
    }
    Step::Done(Ok(entries))
}

impl<'a, L> FilterRead<'a, L> {
    /// Whether `request` is what the read needs next.
    pub open spec fn needs(self, request: NotesRequest) -> bool {
        match self {
            FilterRead::Db { commit_shas } => request == (NotesRequest::DbGetMany { commit_shas }),
            FilterRead::List { commit_shas, .. } => request == (NotesRequest::GitFromList {
                commit_shas,
            }),
            FilterRead::Parse { promotion } => {
                request matches NotesRequest::Deserialize { content } && content@
                    == promotion.note()
            },
            FilterRead::Git { commit_shas } => request == (NotesRequest::GitFromList {
                commit_shas,
            }),
        }
    }

    /// Whether `step` is how the read goes on after `reply`.
    pub open spec fn goes_on<E>(
        self,
        reply: NotesReply<E, L>,
        step: FilterReadStep<'a, E, L>,
    ) -> bool {
        match (self, reply) {
            (FilterRead::Db { commit_shas }, NotesReply::Notes(access)) => {
                &&& step matches Step::Ask(FilterRead::List { cached, commit_shas: listed })
                &&& cached@ == cached_notes(access)
                &&& listed == commit_shas
            },
            (FilterRead::List { cached, .. }, NotesReply::FromList(result)) => match result {
                Ok(entries) => promotes_from(step, cached@, entries@, 0),
                Err(e) => step == FilterReadStep::<'a, E, L>::Done(Err(GitAiError::Host(e))),
            },
            (FilterRead::Parse { promotion }, NotesReply::Deserialized(result)) => {
                let entries = promotion.entries();
                let next = promotion.next();
                promotes_from(
                    step,
                    promotion.cached(),
                    entries.update(next, promoted(entries[next], result)),
                    next + 1,
                )
            },
            (FilterRead::Git { .. }, NotesReply::FromList(result)) => match result {
                Ok(entries) => step == FilterReadStep::<'a, E, L>::Done(Ok(entries)),
                Err(e) => step == FilterReadStep::<'a, E, L>::Done(Err(GitAiError::Host(e))),
            },
            _ => step == FilterReadStep::<'a, E, L>::Ask(self),
        }
    }

    /// What the read needs next.
    pub fn request(&self) -> (request: NotesRequest<'_>)
        ensures
            self.needs(request),
    {
        match self {
            FilterRead::Db { commit_shas } => NotesRequest::DbGetMany { commit_shas },
            FilterRead::List { commit_shas, .. } => NotesRequest::GitFromList { commit_shas },
            FilterRead::Parse { promotion } => promotion.request(),
            FilterRead::Git { commit_shas } => NotesRequest::GitFromList { commit_shas },
        }
    }

    /// Goes on with what was answered.
    pub fn resume<E>(self, reply: NotesReply<E, L>) -> (step: FilterReadStep<'a, E, L>)
        ensures
            self.goes_on(reply, step),
    {
        match (self, reply) {
            (FilterRead::Db { commit_shas }, NotesReply::Notes(access)) => Step::Ask(
                FilterRead::List { cached: http_read_notes(access), commit_shas },
            ),
            (FilterRead::List { cached, .. }, NotesReply::FromList(result)) => match result {
                Ok(entries) => promote_from(cached, entries, 0),
                Err(e) => Step::Done(Err(GitAiError::Host(e))),
            },
            (FilterRead::Parse { promotion }, NotesReply::Deserialized(result)) => {
                promotion.resume(result)
            },
            (FilterRead::Git { .. }, NotesReply::FromList(result)) => match result {
                Ok(entries) => Step::Done(Ok(entries)),
                Err(e) => Step::Done(Err(GitAiError::Host(e))),
            },
            (state, _) => Step::Ask(state),
        }
    }
}

impl<L> Promotion<L> {
    fn request(&self) -> (request: NotesRequest<'_>)
        ensures
            request matches NotesRequest::Deserialize { content } && content@ == self.note(),
    {
        proof {
            use_type_invariant(self);
        }
        let sha = match &self.entries[self.next] {
            CommitAuthorship::NoLog { sha, .. } => sha,
            CommitAuthorship::Log { sha, .. } => sha,
        };
        match self.cached.get(sha) {
            Some(content) => NotesRequest::Deserialize { content: content.as_str() },
            None => vstd::pervasive::unreached(),
        }
    }

    fn resume<'a, E>(self, result: Result<L, String>) -> (step: FilterReadStep<'a, E, L>)
        ensures
            promotes_from(
                step,
                self.cached(),
                self.entries().update(
                    self.next(),
                    promoted(self.entries()[self.next()], result),
                ),
                self.next() + 1,
            ),
    {
        proof {
            use_type_invariant(&self);
        }
        let Promotion { cached, entries, next } = self;
        let mut entries = entries;
        match result {
            Ok(authorship_log) => {
                let (sha, git_author) = match &entries[next] {
                    CommitAuthorship::NoLog { sha, git_author } => (
                        sha.clone(),
                        git_author.clone(),
                    ),
                    CommitAuthorship::Log { sha, git_author, .. } => (
                        sha.clone(),
                        git_author.clone(),
                    ),
                };
                entries.set(next, CommitAuthorship::Log { sha, git_author, authorship_log });
            },
            Err(_) => {
                assert(entries@.update(next as int, entries@[next as int]) =~= entries@);
            },
        }
        assert(next < entries.len());
        promote_from(cached, entries, next + 1)
    }
}

/// Where commits with their authors and logs are first looked for.
pub open spec fn first_of_filter<'a, L>(
    kind: NotesBackendKind,
    commit_shas: &'a [String],
) -> FilterRead<'a, L> {
    match kind {
        NotesBackendKind::Http => FilterRead::Db { commit_shas },
        NotesBackendKind::GitNotes => FilterRead::Git { commit_shas },
    }
}

/// Begins to read the commits with their authors and authorship logs.
///
/// The author of a commit is known to git alone, so git is always asked; a
/// commit for which it has no log gets that of its note in the database, if a
/// log can be read from it.
pub fn filter_commits_with_notes<'a, E, L>(
    kind: NotesBackendKind,
    commit_shas: &'a [String],
) -> (step: FilterReadStep<'a, E, L>)
    ensures
        step == FilterReadStep::<'a, E, L>::Ask(first_of_filter(kind, commit_shas)),
{
    match kind {
        NotesBackendKind::Http => Step::Ask(FilterRead::Db { commit_shas }),
        NotesBackendKind::GitNotes => Step::Ask(FilterRead::Git { commit_shas }),
    }
}

// --- Search ---

/// A search of the git notes under way.
#[derive(Debug)]
pub struct NotesSearch<'a> {
    pub pattern: &'a str,
}

/// How a search of the git notes stands.
pub type NotesSearchStep<'a, E> = Step<NotesSearch<'a>, Result<Vec<String>, GitAiError<E>>>;

impl<'a> NotesSearch<'a> {
    /// What the search needs next.
    pub open spec fn pending(self) -> NotesRequest<'a> {
        NotesRequest::GitGrep { pattern: self.pattern }
    }

    /// How the search goes on after `reply`.
    pub open spec fn then_step<E, L>(self, reply: NotesReply<E, L>) -> NotesSearchStep<'a, E> {
        match reply {
            NotesReply::Grepped(Ok(commits)) => Step::Done(Ok(commits)),
            NotesReply::Grepped(Err(e)) => Step::Done(Err(GitAiError::Host(e))),
            _ => Step::Ask(self),
        }
    }

    /// What the search needs next.
    pub fn request(&self) -> (request: NotesRequest<'a>)
        ensures
            request == self.pending(),
    {
        NotesRequest::GitGrep { pattern: self.pattern }
    }

    /// Goes on with what was answered.
    pub fn resume<E, L>(self, reply: NotesReply<E, L>) -> (step: NotesSearchStep<'a, E>)
        ensures
            step == self.then_step(reply),
    {
        match reply {
            NotesReply::Grepped(Ok(commits)) => Step::Done(Ok(commits)),
            NotesReply::Grepped(Err(e)) => Step::Done(Err(GitAiError::Host(e))),
            _ => Step::Ask(self),
        }
    }
}

/// Begins to search the git notes for a pattern, whatever the backend.
pub fn search_notes<'a, E>(pattern: &'a str) -> (step: NotesSearchStep<'a, E>)
    ensures
        step == NotesSearchStep::<'a, E>::Ask(NotesSearch { pattern }),
{
    Step::Ask(NotesSearch { pattern })
}

// --- Materialization ---

/// The arguments with which git lists the latest commits.
pub open spec fn rev_list_args(global_args: Seq<String>, limit: nat) -> Seq<Seq<char>> {
    texts(global_args) + seq![
        "rev-list"@,
        "--max-count="@ + decimal(limit),
        "HEAD"@,
    ]
}

/// The arguments with which git reads a fast-import stream. Without `--force`
/// git would not let a ref go from one history to another.
pub open spec fn fast_import_args(global_args: Seq<String>) -> Seq<Seq<char>> {
    texts(global_args) + seq!["fast-import"@, "--quiet"@, "--force"@]
}

/// The commits in what git wrote.
pub open spec fn listed_commits(output: Seq<u8>) -> Seq<Seq<char>> {
    non_blank_lines(output_text(output))
}

/// The materialization of notes under way.
#[derive(Debug)]
#[allow(inconsistent_fields)]
pub enum Materialization<'a> {
    /// Git lists the latest commits.
    RevList { global_args: &'a [String], args: Vec<String> },
    /// The database is asked for the notes of the commits.
    Db { global_args: &'a [String], commit_shas: Vec<String> },
    /// Git reads the stream that holds the notes, if only to find that there
    /// are none.
    Import { args: Vec<String>, stream: String, count: usize },
}

/// How the materialization of notes stands.
pub type MaterializationStep<'a, E> = Step<Materialization<'a>, Result<usize, GitAiError<E>>>;

/// Whether git is to read the stream that makes the display ref hold the notes,
/// each a pair of commit and content, and nothing else.
pub open spec fn imports<E>(
    step: MaterializationStep<E>,
    global_args: Seq<String>,
    notes: Seq<(String, String)>,
) -> bool {
    &&& step matches Step::Ask(Materialization::Import { args, stream, count })
    &&& texts(args@) == fast_import_args(global_args)
    &&& stream@ == commands_text(display_commands(notes))
    &&& count == notes.len()
}

fn import<'a, E>(global_args: &'a [String], notes: &Vec<(String, String)>) -> (step:
    MaterializationStep<'a, E>)
    ensures
        imports(step, global_args@, notes@),
{
    let stream = display_stream(notes);
    let mut args = copied_texts(global_args);
    args.push("fast-import".to_string());
    args.push("--quiet".to_string());
    args.push("--force".to_string());
    assert(texts(args@) =~= fast_import_args(global_args@));
    Step::Ask(Materialization::Import { args, stream, count: notes.len() })
}

impl<'a> Materialization<'a> {
    /// Whether `request` is what the materialization needs next.
    pub open spec fn needs(self, request: NotesRequest) -> bool {
        match self {
            Materialization::RevList { args, .. } => {
                request matches NotesRequest::GitExec { args: given } && given@ == args@
            },
            Materialization::Db { commit_shas, .. } => {
                request matches NotesRequest::DbGetMany { commit_shas: given } && given@
                    == commit_shas@
            },
            Materialization::Import { args, stream, .. } => {
                &&& request matches NotesRequest::GitExecStdin { args: given, stdin }
                &&& given@ == args@
                &&& stdin@ == stream@
            },
        }
    }

    /// Whether `step` is how the materialization goes on after `reply`. Without
    /// commits, or without notes, the display ref is to hold nothing. Where the
    /// database cannot be used, there is nothing to display, and the ref stays
    /// as it is.
    pub open spec fn goes_on<E, L>(
        self,
        reply: NotesReply<E, L>,
        step: MaterializationStep<'a, E>,
    ) -> bool {
        match (self, reply) {
            (Materialization::RevList { global_args, .. }, NotesReply::Output(result)) => {
                match result {
                    Ok(output) => if listed_commits(output@).len() == 0 {
                        imports(step, global_args@, Seq::empty())
                    } else {
                        &&& step matches Step::Ask(
                            Materialization::Db { global_args: given, commit_shas },
                        )
                        &&& given == global_args
                        &&& texts(commit_shas@) == listed_commits(output@)
                    },
                    Err(e) => step == MaterializationStep::<'a, E>::Done(Err(GitAiError::Host(e))),
                }
            },
            (Materialization::Db { global_args, .. }, NotesReply::Notes(access)) => {
                if access is Success {
                    imports(step, global_args@, cached_list(access))
                } else {
                    step == MaterializationStep::<'a, E>::Done(Ok(0))
                }
            },
            (Materialization::Import { count, .. }, NotesReply::Imported(result)) => match result {
                Ok(()) => step == MaterializationStep::<'a, E>::Done(Ok(count)),
                Err(e) => step == MaterializationStep::<'a, E>::Done(Err(GitAiError::Host(e))),
            },
            _ => step == MaterializationStep::<'a, E>::Ask(self),
        }
    }

    /// What the materialization needs next.
    pub fn request(&self) -> (request: NotesRequest<'_>)
        ensures
            self.needs(request),
    {
        match self {
            Materialization::RevList { args, .. } => NotesRequest::GitExec {
                args: args.as_slice(),
            },
            Materialization::Db { commit_shas, .. } => NotesRequest::DbGetMany {
                commit_shas: commit_shas.as_slice(),
            },
            Materialization::Import { args, stream, .. } => NotesRequest::GitExecStdin {
                args: args.as_slice(),
                stdin: stream.as_str(),
            },
        }
    }

    /// Goes on with what was answered.
    pub fn resume<E, L>(self, reply: NotesReply<E, L>) -> (step: MaterializationStep<'a, E>)
        ensures
            self.goes_on(reply, step),
    {
        match (self, reply) {
            (Materialization::RevList { global_args, .. }, NotesReply::Output(result)) => {
                match result {
                    Ok(output) => {
                        let stdout = from_utf8_lossy(output.as_slice());
                        let commit_shas = non_blank_line_list(stdout.as_str());
                        if commit_shas.len() == 0 {
                            let no_notes: Vec<(String, String)> = Vec::new();
                            assert(no_notes@ =~= Seq::empty());
                            import(global_args, &no_notes)
                        } else {
                            Step::Ask(Materialization::Db { global_args, commit_shas })
                        }
                    },
                    Err(e) => Step::Done(Err(GitAiError::Host(e))),
                }
            },
            (Materialization::Db { global_args, .. }, NotesReply::Notes(access)) => {
                match access {
                    DbAccess::Success(notes) => import(global_args, notes.entries()),
                    _ => Step::Done(Ok(0)),
                }
            },
            (Materialization::Import { count, .. }, NotesReply::Imported(result)) => match result {
                Ok(()) => Step::Done(Ok(count)),
                Err(e) => Step::Done(Err(GitAiError::Host(e))),
            },
            (state, _) => Step::Ask(state),
        }
    }
}

/// Whether git is to list the latest `limit` commits.
pub open spec fn begins_materialization<'a, E>(
    step: MaterializationStep<'a, E>,
    global_args: &'a [String],
    limit: usize,
) -> bool {
    &&& step matches Step::Ask(Materialization::RevList { global_args: given, args })
    &&& given == global_args
    &&& texts(args@) == rev_list_args(global_args@, limit as nat)
}

/// Begins to materialize notes from the database into the ref
/// `refs/notes/ai-display`, so that `git log --notes=ai-display` can show them
/// without their being in `refs/notes/ai`.
///
/// Only the latest `limit` commits reachable from HEAD are considered. The ref
/// stays in place; each materialization puts the notes of those commits in the
/// place of all that the ref held before. The result is the number of notes
/// that were written. Where the database cannot be used, nothing is written.
/// `global_args` are the arguments with which git finds the repository.
pub fn materialize_notes_for_display<'a, E>(global_args: &'a [String], limit: usize) -> (step:
    MaterializationStep<'a, E>)
    ensures
        begins_materialization(step, global_args, limit),
{
    let mut count_arg = "--max-count=".to_string();
    count_arg.append(decimal_string(limit).as_str());
    let mut args = copied_texts(global_args);
    args.push("rev-list".to_string());
    args.push(count_arg);
    args.push("HEAD".to_string());
    assert(texts(args@) =~= rev_list_args(global_args@, limit as nat));
    Step::Ask(Materialization::RevList { global_args, args })
}

} // verus!
