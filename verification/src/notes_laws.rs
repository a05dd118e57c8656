//! Laws of notes: what the operations come to in a repository with a notes
//! database.
use crate::fast_import_laws::{GitCommit, ImportState};
use crate::fast_import_reading::read_commands;
use crate::notes_api::{
    cached_notes, commits_outside, entry_author, entry_sha, first_of_authorship,
    first_of_authorship_v3, first_of_batch, first_of_filter, first_of_read, first_of_search,
    first_of_write, first_promotable, promotable, promoted, promotes_from, AuthorshipRead,
    AuthorshipV3Read, CommitAuthorship, DbAccess, FilterRead, FilterReadStep, GitAiError,
    Materialization, NoteRead, NotesBackendKind, NotesReply, NotesRequest, NotesWrite,
    WithNotesRead,
};
use crate::step::Step;
use crate::text::{text_of, texts};
use crate::text_map::{entry_keys, with_entries, TextSet};
use vstd::prelude::*;

verus! {

/// A repository and a notes database.
#[verifier::reject_recursive_types(L)]
pub struct NotesWorld<L> {
    /// Whether the database can be used.
    pub db_works: bool,
    /// The notes in the database, by commit.
    pub db: Map<Seq<char>, Seq<char>>,
    /// How often the notes of the database were sent.
    pub sent: nat,
    /// The git notes, by commit.
    pub git: Map<Seq<char>, Seq<char>>,
    /// The authorship log that a note holds, if it holds one.
    pub log: spec_fn(Seq<char>) -> Option<L>,
    /// The commits with their authors and the logs in their git notes.
    pub entries: spec_fn(Seq<String>) -> Seq<CommitAuthorship<L>>,
    /// What git writes when it is run with these arguments.
    pub output: spec_fn(Seq<Seq<char>>) -> Seq<u8>,
    /// The refs that git imports into, by name.
    pub refs: Map<Seq<char>, GitCommit>,
}

/// The value at `key`, if there is one.
pub open spec fn note_at(map: Map<Seq<char>, Seq<char>>, key: Seq<char>) -> Option<Seq<char>> {
    if map.contains_key(key) {
        Some(map[key])
    } else {
        None
    }
}

impl<L> NotesWorld<L> {
    /// The notes that the database gives.
    pub open spec fn cached(self) -> Map<Seq<char>, Seq<char>> {
        if self.db_works {
            self.db
        } else {
            Map::empty()
        }
    }

    /// The authorship log in the git note of a commit.
    pub open spec fn git_log(self, sha: Seq<char>) -> Option<L> {
        match note_at(self.git, sha) {
            Some(note) => (self.log)(note),
            None => None,
        }
    }

    /// The world after a write to the database.
    pub open spec fn with_db(self, db: Map<Seq<char>, Seq<char>>) -> NotesWorld<L> {
        NotesWorld { db, ..self }
    }

    /// The world after a write to git.
    pub open spec fn with_git(self, git: Map<Seq<char>, Seq<char>>) -> NotesWorld<L> {
        NotesWorld { git, ..self }
    }

    /// The world after an import.
    pub open spec fn with_refs(self, refs: Map<Seq<char>, GitCommit>) -> NotesWorld<L> {
        NotesWorld { refs, ..self }
    }

    /// The world after the notes of the database were sent.
    pub open spec fn with_sent(self) -> NotesWorld<L> {
        NotesWorld { sent: self.sent + 1, ..self }
    }

    /// Whether `after` is what a write to the database makes of the world.
    pub open spec fn upserts<E>(
        self,
        db: Map<Seq<char>, Seq<char>>,
        reply: NotesReply<E, L>,
        after: NotesWorld<L>,
    ) -> bool {
        &&& reply matches NotesReply::Upserted(access)
        &&& access is Success == self.db_works
        &&& after == if self.db_works {
            self.with_db(db)
        } else {
            self
        }
    }

    /// Whether the world answers `request` with `reply` and is `after` from
    /// then on.
    pub open spec fn answers<E>(
        self,
        request: NotesRequest,
        reply: NotesReply<E, L>,
        after: NotesWorld<L>,
    ) -> bool {
        match request {
            NotesRequest::DbUpsert { commit_sha, content } => self.upserts(
                self.db.insert(commit_sha@, content@),
                reply,
                after,
            ),
            NotesRequest::DbUpsertBatch { entries } => self.upserts(
                with_entries(self.db, entries@),
                reply,
                after,
            ),
            NotesRequest::SubmitNotes => reply is Submitted && after == self.with_sent(),
            NotesRequest::DbGet { commit_sha } => {
                &&& reply matches NotesReply::Note(access)
                &&& access is Success == self.db_works
                &&& access matches DbAccess::Success(note) ==> text_of(note)
                    == note_at(self.db, commit_sha@)
                &&& after == self
            },
            NotesRequest::DbGetMany { commit_shas } => {
                let known = texts(commit_shas@).to_set().intersect(self.db.dom());
                &&& reply matches NotesReply::Notes(access)
                &&& access is Success == self.db_works
                &&& access matches DbAccess::Success(notes) ==> {
                    &&& notes@.dom() == known
                    &&& forall|sha: Seq<char>| #[trigger]
                        known.contains(sha) ==> notes@[sha]@ == self.db[sha]
                    &&& entry_keys(notes.listed()).no_duplicates()
                }
                &&& after == self
            },
            NotesRequest::GitAdd { commit_sha, content } => {
                &&& reply == NotesReply::<E, L>::Added(Ok(()))
                &&& after == self.with_git(self.git.insert(commit_sha@, content@))
            },
            NotesRequest::GitAddBatch { entries } => {
                &&& reply == NotesReply::<E, L>::Added(Ok(()))
                &&& after == self.with_git(with_entries(self.git, entries@))
            },
            NotesRequest::GitShow { commit_sha } => {
                &&& reply matches NotesReply::Shown(note)
                &&& text_of(note) == note_at(self.git, commit_sha@)
                &&& after == self
            },
            NotesRequest::GitAuthorship { commit_sha } => {
                &&& reply == NotesReply::<E, L>::Authorship(self.git_log(commit_sha@))
                &&& after == self
            },
            NotesRequest::GitAuthorshipV3 { commit_sha } => {
                &&& reply matches NotesReply::AuthorshipV3(result)
                &&& result.ok() == self.git_log(commit_sha@)
                &&& after == self
            },
            NotesRequest::GitWithNotes { commit_shas } => {
                &&& reply matches NotesReply::WithNotes(Ok(found))
                &&& found@ == texts(commit_shas@).to_set().intersect(self.git.dom())
                &&& after == self
            },
            NotesRequest::GitFromList { commit_shas } => {
                &&& reply matches NotesReply::FromList(Ok(entries))
                &&& entries@ == (self.entries)(commit_shas@)
                &&& after == self
            },
            NotesRequest::Deserialize { content } => {
                &&& reply matches NotesReply::Deserialized(result)
                &&& result.ok() == (self.log)(content@)
                &&& after == self
            },
            NotesRequest::GitExec { args } => {
                &&& reply matches NotesReply::Output(Ok(output))
                &&& output@ == (self.output)(texts(args@))
                &&& after == self
            },
            NotesRequest::GitExecStdin { args, stdin } => {
                &&& reply matches NotesReply::Imported(result)
                &&& match read_commands(stdin@) {
                    Some(commands) => {
                        let import = ImportState::start(self.refs, texts(args@)).after_all(
                            commands,
                        );
                        &&& result is Ok == import.succeeds()
                        &&& after == self.with_refs(import.left_refs())
                    },
                    None => result is Err && after == self,
                }
            },
            _ => after == self,
        }
    }
}

/// A state that goes on by requests and replies.
pub trait Dialogue<E, L>: Sized {
    /// What it comes to.
    type Outcome;

    /// Whether `request` is what the state needs next.
    spec fn asks(self, request: NotesRequest) -> bool;

    /// Whether `step` is how the state goes on after `reply`.
    spec fn continues(self, reply: NotesReply<E, L>, step: Step<Self, Self::Outcome>) -> bool;
}

impl<'a, E, L> Dialogue<E, L> for NotesWrite<'a> {
    type Outcome = Result<(), GitAiError<E>>;

    open spec fn asks(self, request: NotesRequest) -> bool {
        request == self.pending()
    }

    open spec fn continues(
        self,
        reply: NotesReply<E, L>,
        step: Step<Self, Result<(), GitAiError<E>>>,
    ) -> bool {
        self.goes_on(reply, step)
    }
}

impl<'a, E, L> Dialogue<E, L> for NoteRead<'a> {
    type Outcome = Option<String>;

    open spec fn asks(self, request: NotesRequest) -> bool {
        request == self.pending()
    }

    open spec fn continues(
        self,
        reply: NotesReply<E, L>,
        step: Step<Self, Option<String>>,
    ) -> bool {
        step == self.then_step(reply)
    }
}

impl<'a, E, L> Dialogue<E, L> for AuthorshipRead<'a> {
    type Outcome = Option<L>;

    open spec fn asks(self, request: NotesRequest) -> bool {
        self.needs(request)
    }

    open spec fn continues(self, reply: NotesReply<E, L>, step: Step<Self, Option<L>>) -> bool {
        step == self.then_step(reply)
    }
}

impl<'a, E, L> Dialogue<E, L> for AuthorshipV3Read<'a> {
    type Outcome = Result<L, GitAiError<E>>;

    open spec fn asks(self, request: NotesRequest) -> bool {
        self.needs(request)
    }

    open spec fn continues(
        self,
        reply: NotesReply<E, L>,
        step: Step<Self, Result<L, GitAiError<E>>>,
    ) -> bool {
        self.goes_on(reply, step)
    }
}

impl<'a, E, L> Dialogue<E, L> for WithNotesRead<'a> {
    type Outcome = Result<TextSet, GitAiError<E>>;

    open spec fn asks(self, request: NotesRequest) -> bool {
        self.needs(request)
    }

    open spec fn continues(
        self,
        reply: NotesReply<E, L>,
        step: Step<Self, Result<TextSet, GitAiError<E>>>,
    ) -> bool {
        self.goes_on(reply, step)
    }
}

impl<'a, E, L> Dialogue<E, L> for FilterRead<'a, L> {
    type Outcome = Result<Vec<CommitAuthorship<L>>, GitAiError<E>>;

    open spec fn asks(self, request: NotesRequest) -> bool {
        self.needs(request)
    }

    open spec fn continues(
        self,
        reply: NotesReply<E, L>,
        step: Step<Self, Result<Vec<CommitAuthorship<L>>, GitAiError<E>>>,
    ) -> bool {
        self.goes_on(reply, step)
    }
}

impl<'a, E, L> Dialogue<E, L> for Materialization<'a> {
    type Outcome = Result<usize, GitAiError<E>>;

    open spec fn asks(self, request: NotesRequest) -> bool {
        self.needs(request)
    }

    open spec fn continues(
        self,
        reply: NotesReply<E, L>,
        step: Step<Self, Result<usize, GitAiError<E>>>,
    ) -> bool {
        self.goes_on(reply, step)
    }
}

/// One answer during an operation: where it stood, what it needed, what was
/// answered, how the world was then and how the operation went on.
#[verifier::reject_recursive_types(L)]
pub struct NotesExchange<'a, S: Dialogue<E, L>, E, L> {
    pub state: S,
    pub request: NotesRequest<'a>,
    pub reply: NotesReply<E, L>,
    pub after: NotesWorld<L>,
    pub step: Step<S, S::Outcome>,
}

/// How the operation stands after the first `k` answers.
pub open spec fn step_after<S: Dialogue<E, L>, E, L>(
    first: Step<S, S::Outcome>,
    talk: Seq<NotesExchange<S, E, L>>,
    k: int,
) -> Step<S, S::Outcome> {
    if k == 0 {
        first
    } else {
        talk[k - 1].step
    }
}

/// How the world is after the first `k` answers.
pub open spec fn world_after<S: Dialogue<E, L>, E, L>(
    world: NotesWorld<L>,
    talk: Seq<NotesExchange<S, E, L>>,
    k: int,
) -> NotesWorld<L> {
    if k == 0 {
        world
    } else {
        talk[k - 1].after
    }
}

/// Whether the exchange `k` is one that the world can have with the operation.
pub open spec fn fits<S: Dialogue<E, L>, E, L>(
    world: NotesWorld<L>,
    first: Step<S, S::Outcome>,
    talk: Seq<NotesExchange<S, E, L>>,
    k: int,
) -> bool {
    let exchange = talk[k];
    &&& step_after(first, talk, k) == Step::<S, S::Outcome>::Ask(exchange.state)
    &&& exchange.state.asks(exchange.request)
    &&& world_after(world, talk, k).answers(exchange.request, exchange.reply, exchange.after)
    &&& exchange.state.continues(exchange.reply, exchange.step)
}

/// Whether `talk` is the operation that began with `first`, from start to end,
/// in a world that was `world` before it.
pub open spec fn completed<S: Dialogue<E, L>, E, L>(
    world: NotesWorld<L>,
    first: Step<S, S::Outcome>,
    talk: Seq<NotesExchange<S, E, L>>,
) -> bool {
    &&& forall|k: int| 0 <= k < talk.len() ==> #[trigger] fits(world, first, talk, k)
    &&& step_after(first, talk, talk.len() as int) is Done
}

/// What the completed operation came to.
pub open spec fn outcome<S: Dialogue<E, L>, E, L>(
    first: Step<S, S::Outcome>,
    talk: Seq<NotesExchange<S, E, L>>,
) -> S::Outcome {
    step_after(first, talk, talk.len() as int)->Done_0
}

/// How the world is after the completed operation.
pub open spec fn left_behind<S: Dialogue<E, L>, E, L>(
    world: NotesWorld<L>,
    talk: Seq<NotesExchange<S, E, L>>,
) -> NotesWorld<L> {
    world_after(world, talk, talk.len() as int)
}

/// A written note goes to its backend and nowhere else: to the database, from
/// which it is then sent, or to git. Where the database cannot be used, the
/// write fails, and nothing is written or sent.
pub proof fn law_a_note_goes_to_its_backend<'a, E, L>(
    world: NotesWorld<L>,
    kind: NotesBackendKind,
    commit_sha: &'a str,
    content: &'a str,
    talk: Seq<NotesExchange<NotesWrite<'a>, E, L>>,
)
    requires
        completed(world, Step::Ask(first_of_write(kind, commit_sha, content)), talk),
    ensures
        match kind {
            NotesBackendKind::Http => if world.db_works {
                &&& outcome(Step::Ask(first_of_write(kind, commit_sha, content)), talk) is Ok
                &&& left_behind(world, talk) == world.with_db(
                    world.db.insert(commit_sha@, content@),
                ).with_sent()
            } else {
                &&& outcome(Step::Ask(first_of_write(kind, commit_sha, content)), talk) is Err
                &&& left_behind(world, talk) == world
            },
            NotesBackendKind::GitNotes => {
                &&& outcome(Step::Ask(first_of_write(kind, commit_sha, content)), talk) is Ok
                &&& left_behind(world, talk) == world.with_git(
                    world.git.insert(commit_sha@, content@),
                )
            },
        },
{
    let first = Step::Ask(first_of_write(kind, commit_sha, content));
    assert(talk.len() > 0);
    assert(fits(world, first, talk, 0));
    if talk.len() > 1 {
        assert(fits(world, first, talk, 1));
        if talk.len() > 2 {
            assert(fits(world, first, talk, 2));
        }
    }
}

/// A batch of notes goes to its backend like a single note; of two notes for
/// one commit the later counts.
pub proof fn law_a_batch_goes_to_its_backend<'a, E, L>(
    world: NotesWorld<L>,
    kind: NotesBackendKind,
    entries: &'a [(String, String)],
    talk: Seq<NotesExchange<NotesWrite<'a>, E, L>>,
)
    requires
        completed(world, Step::Ask(first_of_batch(kind, entries)), talk),
    ensures
        match kind {
            NotesBackendKind::Http => if world.db_works {
                &&& outcome(Step::Ask(first_of_batch(kind, entries)), talk) is Ok
                &&& left_behind(world, talk) == world.with_db(
                    with_entries(world.db, entries@),
                ).with_sent()
            } else {
                &&& outcome(Step::Ask(first_of_batch(kind, entries)), talk) is Err
                &&& left_behind(world, talk) == world
            },
            NotesBackendKind::GitNotes => {
                &&& outcome(Step::Ask(first_of_batch(kind, entries)), talk) is Ok
                &&& left_behind(world, talk) == world.with_git(with_entries(world.git, entries@))
            },
        },
{
    let first = Step::Ask(first_of_batch(kind, entries));
    assert(talk.len() > 0);
    assert(fits(world, first, talk, 0));
    if talk.len() > 1 {
        assert(fits(world, first, talk, 1));
        if talk.len() > 2 {
            assert(fits(world, first, talk, 2));
        }
    }
}

impl<L> NotesWorld<L> {
    /// The note that a read gives: that of the database, if it is the backend
    /// and holds one, otherwise that of git.
    pub open spec fn note_of(self, kind: NotesBackendKind, sha: Seq<char>) -> Option<Seq<char>> {
        match kind {
            NotesBackendKind::Http => match note_at(self.cached(), sha) {
                Some(note) => Some(note),
                None => note_at(self.git, sha),
            },
            NotesBackendKind::GitNotes => note_at(self.git, sha),
        }
    }

    /// The authorship log that a read gives. A note in the database decides,
    /// even where it holds no log.
    pub open spec fn log_of(self, kind: NotesBackendKind, sha: Seq<char>) -> Option<L> {
        match self.note_of(kind, sha) {
            Some(note) => (self.log)(note),
            None => None,
        }
    }
}

/// A read gives the note in the database, if that is the backend and holds one,
/// and otherwise the git note; it changes nothing.
pub proof fn law_a_read_gives_the_note<'a, E, L>(
    world: NotesWorld<L>,
    kind: NotesBackendKind,
    commit_sha: &'a str,
    talk: Seq<NotesExchange<NoteRead<'a>, E, L>>,
)
    requires
        completed(world, Step::Ask(first_of_read(kind, commit_sha)), talk),
    ensures
        text_of(outcome(Step::Ask(first_of_read(kind, commit_sha)), talk))
            == world.note_of(kind, commit_sha@),
        left_behind(world, talk) == world,
{
    let first = Step::Ask(first_of_read(kind, commit_sha));
    assert(talk.len() > 0);
    assert(fits(world, first, talk, 0));
    if talk.len() > 1 {
        assert(fits(world, first, talk, 1));
        if talk.len() > 2 {
            assert(fits(world, first, talk, 2));
        }
    }
}

/// A read gives back what the last write put there, whichever the backend.
pub proof fn law_a_read_gives_back_a_write<'a, E, L>(
    world: NotesWorld<L>,
    kind: NotesBackendKind,
    commit_sha: &'a str,
    content: &'a str,
    write: Seq<NotesExchange<NotesWrite<'a>, E, L>>,
    read: Seq<NotesExchange<NoteRead<'a>, E, L>>,
)
    requires
        completed(world, Step::Ask(first_of_write(kind, commit_sha, content)), write),
        completed(left_behind(world, write), Step::Ask(first_of_read(kind, commit_sha)), read),
        outcome(Step::Ask(first_of_write(kind, commit_sha, content)), write) is Ok,
    ensures
        text_of(outcome(Step::Ask(first_of_read(kind, commit_sha)), read)) == Some(
            content@,
        ),
{
    law_a_note_goes_to_its_backend(world, kind, commit_sha, content, write);
    law_a_read_gives_the_note(left_behind(world, write), kind, commit_sha, read);
}

proof fn lemma_with_entries(
    map: Map<Seq<char>, Seq<char>>,
    entries: Seq<(String, String)>,
    key: Seq<char>,
)
    ensures
        with_entries(Map::empty(), entries).contains_key(key) ==> note_at(
            with_entries(map, entries),
            key,
        ) == Some(with_entries(Map::empty(), entries)[key]),
        !with_entries(Map::empty(), entries).contains_key(key) ==> note_at(
            with_entries(map, entries),
            key,
        ) == note_at(map, key),
    decreases entries.len(),
{
    if entries.len() > 0 {
        lemma_with_entries(map, entries.drop_last(), key);
    }
}

/// A read gives back what a batch put there, the last of the notes that the
/// batch holds for the commit; for a commit that the batch does not name, it
/// gives what it gave before.
pub proof fn law_a_read_gives_back_a_batch<'a, E, L>(
    world: NotesWorld<L>,
    kind: NotesBackendKind,
    entries: &'a [(String, String)],
    commit_sha: &'a str,
    write: Seq<NotesExchange<NotesWrite<'a>, E, L>>,
    read: Seq<NotesExchange<NoteRead<'a>, E, L>>,
)
    requires
        completed(world, Step::Ask(first_of_batch(kind, entries)), write),
        completed(left_behind(world, write), Step::Ask(first_of_read(kind, commit_sha)), read),
        outcome(Step::Ask(first_of_batch(kind, entries)), write) is Ok,
    ensures
        text_of(outcome(Step::Ask(first_of_read(kind, commit_sha)), read)) == match note_at(
            with_entries(Map::empty(), entries@),
            commit_sha@,
        ) {
            Some(content) => Some(content),
            None => world.note_of(kind, commit_sha@),
        },
{
    law_a_batch_goes_to_its_backend(world, kind, entries, write);
    law_a_read_gives_the_note(left_behind(world, write), kind, commit_sha, read);
    lemma_with_entries(world.db, entries@, commit_sha@);
    lemma_with_entries(world.git, entries@, commit_sha@);
}

/// A read of the authorship log gives the log in the note that a read of the
/// note gives, if it holds one; it changes nothing.
pub proof fn law_authorship_is_that_of_the_note<'a, E, L>(
    world: NotesWorld<L>,
    kind: NotesBackendKind,
    commit_sha: &'a str,
    talk: Seq<NotesExchange<AuthorshipRead<'a>, E, L>>,
)
    requires
        completed(world, Step::Ask(first_of_authorship(kind, commit_sha)), talk),
    ensures
        outcome(Step::Ask(first_of_authorship(kind, commit_sha)), talk) == world.log_of(
            kind,
            commit_sha@,
        ),
        left_behind(world, talk) == world,
{
    let first = Step::Ask(first_of_authorship(kind, commit_sha));
    assert(talk.len() > 0);
    assert(fits(world, first, talk, 0));
    if talk.len() > 1 {
        assert(fits(world, first, talk, 1));
        if talk.len() > 2 {
            assert(fits(world, first, talk, 2));
        }
    }
}

/// A read of an authorship log that has to be there gives the same log as one
/// that need not be, and fails where that gives none.
pub proof fn law_authorship_v3_is_that_of_the_note<'a, E, L>(
    world: NotesWorld<L>,
    kind: NotesBackendKind,
    commit_sha: &'a str,
    talk: Seq<NotesExchange<AuthorshipV3Read<'a>, E, L>>,
)
    requires
        completed(world, Step::Ask(first_of_authorship_v3(kind, commit_sha)), talk),
    ensures
        outcome(Step::Ask(first_of_authorship_v3(kind, commit_sha)), talk).ok() == world.log_of(
            kind,
            commit_sha@,
        ),
        left_behind(world, talk) == world,
{
    let first = Step::Ask(first_of_authorship_v3(kind, commit_sha));
    assert(talk.len() > 0);
    assert(fits(world, first, talk, 0));
    if talk.len() > 1 {
        assert(fits(world, first, talk, 1));
        if talk.len() > 2 {
            assert(fits(world, first, talk, 2));
        }
    }
}

impl<L> NotesWorld<L> {
    /// Those of the commits for which a read gives a note.
    pub open spec fn noted(self, kind: NotesBackendKind, commit_shas: Seq<String>) -> Set<
        Seq<char>,
    > {
        texts(commit_shas).to_set().filter(
            |sha: Seq<char>| self.note_of(kind, sha) is Some,
        )
    }
}

proof fn lemma_commits_outside(commit_shas: Seq<String>, known: Set<Seq<char>>, sha: Seq<char>)
    ensures
        texts(commits_outside(commit_shas, known)).contains(sha)
            <==> texts(commit_shas).contains(sha) && !known.contains(sha),
{
    let outside = |sha: String| !known.contains(sha@);
    let missing = commit_shas.filter(outside);
    let all = texts(commit_shas);
    let some = texts(missing);
    if some.contains(sha) {
        let i = some.index_of(sha);
        assert(missing.contains(missing[i]));
        commit_shas.lemma_filter_pred(outside, i);
        commit_shas.lemma_filter_contains_rev(outside, missing[i]);
        let j = commit_shas.index_of(missing[i]);
        assert(all[j] == sha);
    }
    if all.contains(sha) && !known.contains(sha) {
        let i = all.index_of(sha);
        assert(outside(commit_shas[i]));
        commit_shas.lemma_filter_contains(outside, i);
        let j = missing.index_of(commit_shas[i]);
        assert(some[j] == sha);
    }
}

/// As many commits with a note in the database as commits were asked for means
/// that each of them has one.
proof fn lemma_all_known(commit_shas: Seq<String>, known: Set<Seq<char>>)
    requires
        known.subset_of(texts(commit_shas).to_set()),
        known.len() == commit_shas.len(),
    ensures
        known == texts(commit_shas).to_set(),
{
    let all = texts(commit_shas);
    vstd::seq_lib::seq_to_set_is_finite(all);
    all.lemma_cardinality_of_set();
    vstd::set_lib::lemma_len_subset(known, all.to_set());
    vstd::set_lib::lemma_subset_equality(known, all.to_set());
}

/// The search finds exactly those of the commits for which a read gives a note,
/// also where it does without asking git; it changes nothing.
pub proof fn law_commits_with_notes_are_found<'a, E, L>(
    world: NotesWorld<L>,
    kind: NotesBackendKind,
    commit_shas: &'a [String],
    talk: Seq<NotesExchange<WithNotesRead<'a>, E, L>>,
)
    requires
        completed(world, Step::Ask(first_of_search(kind, commit_shas)), talk),
    ensures
        outcome(Step::Ask(first_of_search(kind, commit_shas)), talk) matches Ok(found) && found@
            == world.noted(kind, commit_shas@),
        left_behind(world, talk) == world,
{
    let first = Step::Ask(first_of_search(kind, commit_shas));
    let all = texts(commit_shas@).to_set();
    let noted = world.noted(kind, commit_shas@);
    assert(talk.len() > 0);
    assert(fits(world, first, talk, 0));
    if kind == NotesBackendKind::Http {
        let access = talk[0].reply->Notes_0;
        let known = cached_notes(access).dom();
        assert(known =~= all.intersect(world.cached().dom()));
        if known.len() == commit_shas@.len() {
            lemma_all_known(commit_shas@, known);
            assert(known =~= noted);
            if talk.len() > 1 {
                assert(fits(world, first, talk, 1));
            }
        } else {
            assert(talk.len() > 1);
            assert(fits(world, first, talk, 1));
            let missing = commits_outside(commit_shas@, known);
            let from_git = texts(missing).to_set().intersect(world.git.dom());
            assert forall|sha: Seq<char>| known.union(from_git).contains(sha) == noted.contains(
                sha,
            ) by {
                lemma_commits_outside(commit_shas@, known, sha);
            }
            assert(known.union(from_git) =~= noted);
            if talk.len() > 2 {
                assert(fits(world, first, talk, 2));
            }
        }
    } else {
        assert(all.intersect(world.git.dom()) =~= noted);
        if talk.len() > 1 {
            assert(fits(world, first, talk, 1));
        }
    }
}

impl<L> NotesWorld<L> {
    /// The notes that the database gives for the commits.
    pub open spec fn cached_for(self, commit_shas: Seq<String>) -> Map<Seq<char>, Seq<char>> {
        self.cached().restrict(texts(commit_shas).to_set())
    }

    /// The entry with the log in the note of its commit among `notes`, if it
    /// has no log of its own and the note holds one.
    pub open spec fn with_cached_log(
        self,
        notes: Map<Seq<char>, Seq<char>>,
        entry: CommitAuthorship<L>,
    ) -> CommitAuthorship<L> {
        let sha = entry_sha(entry);
        if entry is NoLog && notes.contains_key(sha@) {
            match (self.log)(notes[sha@]) {
                Some(authorship_log) => CommitAuthorship::Log {
                    sha,
                    git_author: entry_author(entry),
                    authorship_log,
                },
                None => entry,
            }
        } else {
            entry
        }
    }

    /// The commits with their authors and logs.
    pub open spec fn authorships(self, kind: NotesBackendKind, commit_shas: Seq<String>) -> Seq<
        CommitAuthorship<L>,
    > {
        let entries = (self.entries)(commit_shas);
        match kind {
            NotesBackendKind::Http => entries.map_values(
                |entry: CommitAuthorship<L>|
                    self.with_cached_log(self.cached_for(commit_shas), entry),
            ),
            NotesBackendKind::GitNotes => entries,
        }
    }

    /// Whether `notes` are the strings that hold `texts`.
    spec fn holds(notes: Map<Seq<char>, String>, texts: Map<Seq<char>, Seq<char>>) -> bool {
        &&& notes.dom() == texts.dom()
        &&& forall|sha: Seq<char>| #[trigger]
            notes.contains_key(sha) ==> notes[sha]@ == texts[sha]
    }

    /// Whether the entries before `i` have their final form and those from `i`
    /// on the one that git gave.
    spec fn promoted_up_to(
        self,
        commit_shas: Seq<String>,
        entries: Seq<CommitAuthorship<L>>,
        i: int,
    ) -> bool {
        let target = self.authorships(NotesBackendKind::Http, commit_shas);
        &&& entries.len() == target.len()
        &&& forall|j: int| 0 <= j < i && j < entries.len() ==> #[trigger] entries[j] == target[j]
        &&& forall|j: int|
            i <= j < entries.len() ==> #[trigger] entries[j] == (self.entries)(commit_shas)[j]
    }

    /// Whether the read is at a promotable entry, with all before it done, or
    /// over.
    spec fn promoting<'a, E>(
        self,
        commit_shas: Seq<String>,
        step: FilterReadStep<'a, E, L>,
    ) -> bool {
        match step {
            Step::Ask(FilterRead::Parse { promotion }) => {
                &&& Self::holds(promotion.cached(), self.cached_for(commit_shas))
                &&& 0 <= promotion.next() < promotion.entries().len()
                &&& promotable(
                    promotion.entries()[promotion.next()],
                    promotion.cached(),
                )
                &&& self.promoted_up_to(commit_shas, promotion.entries(), promotion.next())
            },
            Step::Done(Ok(entries)) => entries@ == self.authorships(
                NotesBackendKind::Http,
                commit_shas,
            ),
            _ => false,
        }
    }
}

proof fn lemma_first_promotable<L>(
    entries: Seq<CommitAuthorship<L>>,
    cached: Map<Seq<char>, String>,
    i: int,
)
    requires
        0 <= i <= entries.len(),
    ensures
        i <= first_promotable(entries, cached, i) <= entries.len(),
        forall|j: int|
            i <= j < first_promotable(entries, cached, i)
                ==> !promotable(#[trigger] entries[j], cached),
        first_promotable(entries, cached, i) < entries.len()
            ==> promotable(
            entries[first_promotable(entries, cached, i)],
            cached,
        ),
    decreases entries.len() - i,
{
    if i < entries.len() && !promotable(entries[i], cached) {
        lemma_first_promotable(entries, cached, i + 1);
    }
}

proof fn lemma_promotes_from<'a, E, L>(
    world: NotesWorld<L>,
    commit_shas: Seq<String>,
    step: FilterReadStep<'a, E, L>,
    cached: Map<Seq<char>, String>,
    entries: Seq<CommitAuthorship<L>>,
    i: int,
)
    requires
        0 <= i <= entries.len(),
        NotesWorld::<L>::holds(cached, world.cached_for(commit_shas)),
        world.promoted_up_to(commit_shas, entries, i),
        promotes_from(step, cached, entries, i),
    ensures
        world.promoting(commit_shas, step),
{
    lemma_first_promotable(entries, cached, i);
    let next = first_promotable(entries, cached, i);
    let target = world.authorships(NotesBackendKind::Http, commit_shas);
    assert forall|j: int| 0 <= j < next implies #[trigger] entries[j] == target[j] by {
        if j >= i {
            assert(!promotable(entries[j], cached));
        }
    }
    if next == entries.len() {
        assert(entries =~= target);
    }
}

proof fn lemma_filter_talk<'a, E, L>(
    world: NotesWorld<L>,
    commit_shas: &'a [String],
    talk: Seq<NotesExchange<FilterRead<'a, L>, E, L>>,
    k: int,
)
    requires
        completed(world, Step::Ask(first_of_filter(NotesBackendKind::Http, commit_shas)), talk),
        2 <= k <= talk.len(),
    ensures
        world_after(world, talk, k) == world,
        world.promoting(commit_shas@, talk[k - 1].step),
    decreases k,
{
    let first = Step::Ask(first_of_filter(NotesBackendKind::Http, commit_shas));
    let exchange = talk[k - 1];
    assert(fits(world, first, talk, k - 1));
    if k == 2 {
        assert(fits(world, first, talk, 0));
        let access = talk[0].reply->Notes_0;
        let cached = talk[0].step->Ask_0->List_cached@;
        assert(cached == cached_notes(access));
        let texts = world.cached_for(commit_shas@);
        assert(cached.dom() =~= texts.dom());
        assert(NotesWorld::<L>::holds(cached, texts));
        let entries = exchange.reply->FromList_0->Ok_0@;
        assert(world.promoted_up_to(commit_shas@, entries, 0));
        lemma_promotes_from(world, commit_shas@, exchange.step, cached, entries, 0);
    } else {
        lemma_filter_talk(world, commit_shas, talk, k - 1);
        let promotion = exchange.state->Parse_promotion;
        let entries = promotion.entries();
        let next = promotion.next();
        let result = exchange.reply->Deserialized_0;
        let after = entries.update(next, promoted(entries[next], result));
        let target = world.authorships(NotesBackendKind::Http, commit_shas@);
        assert(entries[next] == (world.entries)(commit_shas@)[next]);
        assert(after[next] == target[next]);
        assert(world.promoted_up_to(commit_shas@, after, next + 1));
        lemma_promotes_from(
            world,
            commit_shas@,
            exchange.step,
            promotion.cached(),
            after,
            next + 1,
        );
    }
}

/// The read gives the commits that git lists, in their order and with their
/// authors. With the database as backend, an entry without a log gets that of
/// its note in the database, if the note holds one; all else stays as git gave
/// it. The read changes nothing.
pub proof fn law_cached_logs_are_filled_in<'a, E, L>(
    world: NotesWorld<L>,
    kind: NotesBackendKind,
    commit_shas: &'a [String],
    talk: Seq<NotesExchange<FilterRead<'a, L>, E, L>>,
)
    requires
        completed(world, Step::Ask(first_of_filter(kind, commit_shas)), talk),
    ensures
        outcome(Step::Ask(first_of_filter(kind, commit_shas)), talk) matches Ok(entries)
            && entries@ == world.authorships(kind, commit_shas@),
        left_behind(world, talk) == world,
{
    let first = Step::Ask(first_of_filter(kind, commit_shas));
    assert(talk.len() > 0);
    assert(fits(world, first, talk, 0));
    if kind == NotesBackendKind::Http {
        assert(talk.len() > 1);
        lemma_filter_talk(world, commit_shas, talk, talk.len() as int);
    } else {
        if talk.len() > 1 {
            assert(fits(world, first, talk, 1));
        }
    }
}

} // verus!
