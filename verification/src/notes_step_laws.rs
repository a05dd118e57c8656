//! Laws of the steps of the operations on notes: what each asks for first, what it
//! makes of an answer, and with which failure it ends.
use crate::notes_api::{
    cached_list, cached_note, cached_notes, first_of_authorship, first_of_authorship_v3,
    first_of_batch, first_of_filter, first_of_read, first_of_search, first_of_write,
    first_promotable, promoted,
    AuthorshipRead, AuthorshipReadStep, AuthorshipV3Read, AuthorshipV3ReadStep, BlobOidsRead,
    BlobOidsReadStep, CommitAuthorship, DbAccess, FilterRead, FilterReadStep, GitAiError,
    Materialization, MaterializationStep, NoteRead, NoteReadStep, NotesBackendKind, NotesReply,
    NotesRequest, NotesSearch, NotesSearchStep, NotesWrite, NotesWriteStep, WithNotesRead,
    WithNotesReadStep,
};
use crate::step::Step;
use crate::text_map::TextMap;
use vstd::prelude::*;

verus! {

/// What the database gave counts where the operation succeeded, and nothing does
/// where the database could not be opened or locked, or the operation failed.
pub proof fn law_only_a_success_of_the_database_counts<E>(
    note: Option<String>,
    notes: TextMap<String>,
    e: E,
    message: String,
)
    ensures
        cached_note(DbAccess::<Option<String>, E>::Success(note)) == note,
        cached_note(DbAccess::<Option<String>, E>::NotOpened(e)) is None,
        cached_note(DbAccess::<Option<String>, E>::NotLocked(message)) is None,
        cached_note(DbAccess::<Option<String>, E>::Failed(e)) is None,
        cached_notes(DbAccess::<TextMap<String>, E>::Success(notes)) == notes@,
        cached_notes(DbAccess::<TextMap<String>, E>::NotOpened(e)) == Map::<
            Seq<char>,
            String,
        >::empty(),
        cached_notes(DbAccess::<TextMap<String>, E>::NotLocked(message)) == Map::<
            Seq<char>,
            String,
        >::empty(),
        cached_notes(DbAccess::<TextMap<String>, E>::Failed(e)) == Map::<
            Seq<char>,
            String,
        >::empty(),
        cached_list(DbAccess::<TextMap<String>, E>::Success(notes)) == notes.listed(),
        cached_list(DbAccess::<TextMap<String>, E>::NotOpened(e)).len() == 0,
        cached_list(DbAccess::<TextMap<String>, E>::NotLocked(message)).len() == 0,
        cached_list(DbAccess::<TextMap<String>, E>::Failed(e)).len() == 0,
{
}

/// With notes in git, every operation asks git, and git alone, for its commits;
/// with notes in the database, it asks the database first.
pub proof fn law_the_backend_is_asked_first<'a, L>(
    commit_sha: &'a str,
    content: &'a str,
    entries: &'a [(String, String)],
    commit_shas: &'a [String],
    request: NotesRequest<'a>,
)
    ensures
        first_of_write(NotesBackendKind::GitNotes, commit_sha, content).pending() == (
        NotesRequest::GitAdd { commit_sha, content }),
        first_of_write(NotesBackendKind::Http, commit_sha, content).pending() == (
        NotesRequest::DbUpsert { commit_sha, content }),
        first_of_batch(NotesBackendKind::GitNotes, entries).pending() == (
        NotesRequest::GitAddBatch { entries }),
        first_of_batch(NotesBackendKind::Http, entries).pending() == (
        NotesRequest::DbUpsertBatch { entries }),
        first_of_read(NotesBackendKind::GitNotes, commit_sha).pending() == (
        NotesRequest::GitShow { commit_sha }),
        first_of_read(NotesBackendKind::Http, commit_sha).pending() == (NotesRequest::DbGet {
            commit_sha,
        }),
        first_of_authorship(NotesBackendKind::GitNotes, commit_sha).needs(request) ==> request == (
        NotesRequest::GitAuthorship { commit_sha }),
        first_of_authorship(NotesBackendKind::Http, commit_sha).needs(request) ==> request == (
        NotesRequest::DbGet { commit_sha }),
        first_of_authorship_v3(NotesBackendKind::GitNotes, commit_sha).needs(request) ==> request
            == (NotesRequest::GitAuthorshipV3 { commit_sha }),
        first_of_authorship_v3(NotesBackendKind::Http, commit_sha).needs(request) ==> request == (
        NotesRequest::DbGet { commit_sha }),
        first_of_search(NotesBackendKind::GitNotes, commit_shas).needs(request) ==> request == (
        NotesRequest::GitWithNotes { commit_shas }),
        first_of_search(NotesBackendKind::Http, commit_shas).needs(request) ==> request == (
        NotesRequest::DbGetMany { commit_shas }),
        first_of_filter::<L>(NotesBackendKind::GitNotes, commit_shas).needs(request) ==> request
            == (NotesRequest::GitFromList { commit_shas }),
        first_of_filter::<L>(NotesBackendKind::Http, commit_shas).needs(request) ==> request == (
        NotesRequest::DbGetMany { commit_shas }),
        (BlobOidsRead { commit_shas }).pending() == (NotesRequest::GitBlobOids { commit_shas }),
        (NotesSearch { pattern: content }).pending() == (NotesRequest::GitGrep {
            pattern: content,
        }),
{
}

/// A write to the database that fails ends there, and nothing is sent: with the
/// failure of opening the database or of the operation as it is, or with a
/// message that the database could not be locked. One that succeeds is followed
/// by sending the notes, and only then is the write over.
pub proof fn law_a_write_is_sent_once_the_database_holds_it<'a, E, L>(
    state: NotesWrite<'a>,
    access: DbAccess<(), E>,
    step: NotesWriteStep<'a, E>,
)
    requires
        state is Db || state is DbBatch,
        state.goes_on(NotesReply::<E, L>::Upserted(access), step),
    ensures
        match access {
            DbAccess::NotOpened(e) => step == NotesWriteStep::<'a, E>::Done(
                Err(GitAiError::Host(e)),
            ),
            DbAccess::NotLocked(message) => {
                &&& step matches Step::Done(Err(GitAiError::Generic(text)))
                &&& text@ == "notes-db lock: "@ + message@
            },
            DbAccess::Failed(e) => step == NotesWriteStep::<'a, E>::Done(Err(GitAiError::Host(e))),
            DbAccess::Success(_) => {
                &&& step matches Step::Ask(next)
                &&& next.pending() == NotesRequest::<'a>::SubmitNotes
                &&& forall|last: NotesWriteStep<'a, E>| #[trigger]
                    next.goes_on(NotesReply::<E, L>::Submitted, last) ==> last == NotesWriteStep::<
                        'a,
                        E,
                    >::Done(Ok(()))
            },
        },
{
}

/// A write to git ends with what git says.
pub proof fn law_a_write_to_git_ends_as_git_says<'a, E, L>(
    state: NotesWrite<'a>,
    result: Result<(), E>,
    step: NotesWriteStep<'a, E>,
)
    requires
        state is Git || state is GitBatch,
        state.goes_on(NotesReply::<E, L>::Added(result), step),
    ensures
        match result {
            Ok(_) => step == NotesWriteStep::<'a, E>::Done(Ok(())),
            Err(e) => step == NotesWriteStep::<'a, E>::Done(Err(GitAiError::Host(e))),
        },
{
}

/// A read of a note gives the note of the database as it is; where the database
/// has none, or cannot be used, it gives what git shows.
pub proof fn law_git_is_asked_for_a_note_that_is_not_in_the_database<'a, E, L>(
    commit_sha: &'a str,
    access: DbAccess<Option<String>, E>,
    shown: Option<String>,
)
    ensures
        (NoteRead::Db { commit_sha }).then_step(NotesReply::<E, L>::Note(access)) == (match access {
            DbAccess::Success(Some(content)) => NoteReadStep::<'a>::Done(Some(content)),
            _ => NoteReadStep::<'a>::Ask(NoteRead::Git { commit_sha }),
        }),
        (NoteRead::Git { commit_sha }).then_step(NotesReply::<E, L>::Shown(shown))
            == NoteReadStep::<'a>::Done(shown),
{
}

/// The authorship log of a commit is read from the note of the database where
/// there is one, and there is no log where none can be read from it; where the
/// database has no note, or cannot be used, the log is that which git gives.
pub proof fn law_a_note_of_the_database_decides_on_the_log<'a, E, L>(
    commit_sha: &'a str,
    content: String,
    access: DbAccess<Option<String>, E>,
    parsed: Result<L, String>,
    from_git: Option<L>,
    request: NotesRequest,
)
    ensures
        (AuthorshipRead::Db { commit_sha }).then_step(NotesReply::<E, L>::Note(access)) == (
        match access {
            DbAccess::Success(Some(note)) => AuthorshipReadStep::<'a, L>::Ask(
                AuthorshipRead::Parse { content: note },
            ),
            _ => AuthorshipReadStep::<'a, L>::Ask(AuthorshipRead::Git { commit_sha }),
        }),
        (AuthorshipRead::Parse { content }).needs(request) ==> (
        request matches NotesRequest::Deserialize { content: text } && text@ == content@),
        (AuthorshipRead::Parse { content }).then_step(NotesReply::<E, L>::Deserialized(parsed)) == (
        match parsed {
            Ok(log) => AuthorshipReadStep::<'a, L>::Done(Some(log)),
            Err(_) => AuthorshipReadStep::<'a, L>::Done(None),
        }),
        (AuthorshipRead::Git { commit_sha }).then_step(NotesReply::<E, L>::Authorship(from_git))
            == AuthorshipReadStep::<'a, L>::Done(from_git),
{
}

/// The same holds where a log has to be: what is in the database decides, a note
/// from which no log can be read is a failure that says why, and git's own
/// failure is handed on.
pub proof fn law_a_log_that_has_to_be_is_missed_for_a_reason<'a, E, L>(
    state: AuthorshipV3Read<'a>,
    reply: NotesReply<E, L>,
    step: AuthorshipV3ReadStep<'a, E, L>,
    request: NotesRequest,
)
    requires
        state.goes_on(reply, step),
    ensures
        match (state, reply) {
            (AuthorshipV3Read::Db { commit_sha }, NotesReply::Note(access)) => match access {
                DbAccess::Success(Some(note)) => step == AuthorshipV3ReadStep::<'a, E, L>::Ask(
                    AuthorshipV3Read::Parse { content: note },
                ),
                _ => step == AuthorshipV3ReadStep::<'a, E, L>::Ask(
                    AuthorshipV3Read::Git { commit_sha },
                ),
            },
            (AuthorshipV3Read::Parse { .. }, NotesReply::Deserialized(Ok(log))) => {
                step == AuthorshipV3ReadStep::<'a, E, L>::Done(Ok(log))
            },
            (AuthorshipV3Read::Parse { .. }, NotesReply::Deserialized(Err(message))) => {
                &&& step matches Step::Done(Err(GitAiError::Generic(text)))
                &&& text@ == "notes deserialization error: "@ + message@
            },
            (AuthorshipV3Read::Git { .. }, NotesReply::AuthorshipV3(Ok(log))) => {
                step == AuthorshipV3ReadStep::<'a, E, L>::Done(Ok(log))
            },
            (AuthorshipV3Read::Git { .. }, NotesReply::AuthorshipV3(Err(e))) => {
                step == AuthorshipV3ReadStep::<'a, E, L>::Done(Err(GitAiError::Host(e)))
            },
            _ => step == AuthorshipV3ReadStep::<'a, E, L>::Ask(state),
        },
        state matches AuthorshipV3Read::Parse { content } ==> state.needs(request) ==> (
        request matches NotesRequest::Deserialize { content: text } && text@ == content@),
{
}

/// Blobs of notes and matches of a search are those that git gives, and its
/// failures are handed on.
pub proof fn law_blobs_and_matchedare_those_of_git<'a, E, L>(
    commit_shas: &'a [String],
    pattern: &'a str,
    oids: Result<TextMap<String>, E>,
    matched: Result<Vec<String>, E>,
)
    ensures
        (BlobOidsRead { commit_shas }).then_step(NotesReply::<E, L>::BlobOids(oids)) == (
        match oids {
            Ok(found) => BlobOidsReadStep::<'a, E>::Done(Ok(found)),
            Err(e) => BlobOidsReadStep::<'a, E>::Done(Err(GitAiError::Host(e))),
        }),
        (NotesSearch { pattern }).then_step(NotesReply::<E, L>::Grepped(matched)) == (
        match matched {
            Ok(found) => NotesSearchStep::<'a, E>::Done(Ok(found)),
            Err(e) => NotesSearchStep::<'a, E>::Done(Err(GitAiError::Host(e))),
        }),
{
}

/// Where the database has a note of as many commits as were asked for, git is not
/// asked; else git is asked for each commit without a note in the database, in
/// order and for no other, and the commits found are those of both. Without the
/// database, they are those of git. A failure of git is handed on.
pub proof fn law_git_is_asked_for_the_commits_that_are_missing<'a, E, L>(
    state: WithNotesRead<'a>,
    reply: NotesReply<E, L>,
    step: WithNotesReadStep<'a, E>,
)
    requires
        state.goes_on(reply, step),
    ensures
        match (state, reply) {
            (WithNotesRead::Db { commit_shas }, NotesReply::Notes(DbAccess::Success(notes))) => {
                if notes@.dom().len() == commit_shas@.len() {
                    step matches Step::Done(Ok(found)) && found@ == notes@.dom()
                } else {
                    &&& step matches Step::Ask(WithNotesRead::Missing { cached, missing })
                    &&& cached@ == notes@.dom()
                    &&& missing@ == commit_shas@.filter(
                        |sha: String| !notes@.contains_key(sha@),
                    )
                }
            },
            (WithNotesRead::Db { commit_shas }, NotesReply::Notes(_)) => {
                if commit_shas@.len() == 0 {
                    step matches Step::Done(Ok(found)) && found@ == Set::<Seq<char>>::empty()
                } else {
                    &&& step matches Step::Ask(WithNotesRead::Missing { cached, missing })
                    &&& cached@ == Set::<Seq<char>>::empty()
                    &&& missing@ == commit_shas@
                }
            },
            (WithNotesRead::Missing { cached, .. }, NotesReply::WithNotes(Ok(from_git))) => {
                &&& step matches Step::Done(Ok(found))
                &&& forall|commit: Seq<char>| #[trigger]
                    found@.contains(commit) <==> cached@.contains(commit) || from_git@.contains(
                        commit,
                    )
            },
            (WithNotesRead::Git { .. }, NotesReply::WithNotes(Ok(from_git))) => {
                step matches Step::Done(Ok(found)) && found@ == from_git@
            },
            (
                WithNotesRead::Missing { .. } | WithNotesRead::Git { .. },
                NotesReply::WithNotes(Err(e)),
            ) => step == WithNotesReadStep::<'a, E>::Done(Err(GitAiError::Host(e))),
            _ => step == WithNotesReadStep::<'a, E>::Ask(state),
        },
{
    match (state, reply) {
        (WithNotesRead::Db { commit_shas }, NotesReply::Notes(DbAccess::Success(notes))) => {
            assert((|sha: String| !notes@.dom().contains(sha@)) =~= (|sha: String|
                !notes@.contains_key(sha@)));
        },
        (WithNotesRead::Db { commit_shas }, NotesReply::Notes(access)) => {
            let none = Map::<Seq<char>, String>::empty().dom();
            assert(none =~= Set::empty());
            lemma_all_kept(commit_shas@, none);
        },
        _ => {},
    }
}

proof fn lemma_all_kept(commit_shas: Seq<String>, known: Set<Seq<char>>)
    requires
        known == Set::<Seq<char>>::empty(),
    ensures
        commit_shas.filter(|sha: String| !known.contains(sha@)) == commit_shas,
    decreases commit_shas.len(),
{
    reveal(Seq::filter);
    if commit_shas.len() > 0 {
        lemma_all_kept(commit_shas.drop_last(), known);
        assert(commit_shas.drop_last().push(commit_shas.last()) =~= commit_shas);
    }
}

/// Commits with their authors are those that git lists for the commits that were
/// asked for; with notes in git they are handed on as they are. A failure of git
/// is handed on.
pub proof fn law_authors_are_those_of_git<'a, E, L>(
    state: FilterRead<'a, L>,
    reply: NotesReply<E, L>,
    step: FilterReadStep<'a, E, L>,
)
    requires
        state.goes_on(reply, step),
    ensures
        match (state, reply) {
            (FilterRead::Db { commit_shas }, NotesReply::Notes(access)) => {
                &&& step matches Step::Ask(FilterRead::List { cached, commit_shas: asked })
                &&& asked == commit_shas
                &&& match access {
                    DbAccess::Success(notes) => cached@ == notes@,
                    _ => cached@ == Map::<Seq<char>, String>::empty(),
                }
            },
            (FilterRead::Git { .. }, NotesReply::FromList(Ok(entries))) => {
                step == FilterReadStep::<'a, E, L>::Done(Ok(entries))
            },
            (
                FilterRead::Git { .. } | FilterRead::List { .. },
                NotesReply::FromList(Err(e)),
            ) => step == FilterReadStep::<'a, E, L>::Done(Err(GitAiError::Host(e))),
            _ => true,
        },
{
}

/// An entry of a list without a log gets the log that was read from its note,
/// keeps its commit and its author, and stays as it is where no log could be
/// read; entries before it and after it are not touched by that.
pub proof fn law_a_read_log_goes_to_its_entry<'a, E, L>(
    state: FilterRead<'a, L>,
    result: Result<L, String>,
    step: FilterReadStep<'a, E, L>,
    i: int,
)
    requires
        state is Parse,
        0 <= state->promotion.next() < state->promotion.entries().len(),
        state->promotion.entries()[state->promotion.next()] is NoLog,
        state.goes_on(NotesReply::Deserialized(result), step),
        0 <= i < state->promotion.entries().len(),
    ensures
        ({
            let before = state->promotion.entries();
            let next = state->promotion.next();
            let after = match step {
                Step::Ask(FilterRead::Parse { promotion }) => promotion.entries(),
                Step::Done(Ok(entries)) => entries@,
                _ => Seq::empty(),
            };
            &&& after.len() == before.len()
            &&& i != next ==> after[i] == before[i]
            &&& i == next ==> match (before[i], result) {
                (CommitAuthorship::NoLog { sha, git_author }, Ok(authorship_log)) => after[i] == (
                CommitAuthorship::Log { sha, git_author, authorship_log }),
                _ => after[i] == before[i],
            }
        }),
{
}

/// Whether the entry has no log, and its commit a note.
pub open spec fn lacks_a_cached_log<L>(
    entry: CommitAuthorship<L>,
    notes: Map<Seq<char>, String>,
) -> bool {
    entry matches CommitAuthorship::NoLog { sha, .. } && notes.contains_key(sha@)
}

proof fn lemma_first_promotable<L>(
    entries: Seq<CommitAuthorship<L>>,
    notes: Map<Seq<char>, String>,
    i: int,
)
    requires
        0 <= i <= entries.len(),
    ensures
        ({
            let next = first_promotable(entries, notes, i);
            &&& i <= next <= entries.len()
            &&& next < entries.len() ==> lacks_a_cached_log(entries[next], notes)
            &&& forall|k: int| i <= k < next ==> !lacks_a_cached_log(#[trigger] entries[k], notes)
        }),
    decreases entries.len() - i,
{
    if i < entries.len() && !lacks_a_cached_log(entries[i], notes) {
        lemma_first_promotable(entries, notes, i + 1);
    }
}

/// The entries without a log are gone through from the first to the last: the
/// next whose commit has a note in the database gets its turn, with that note to
/// be read; where there is none left, the read is over.
pub proof fn law_cached_notes_are_read_in_turn<'a, E, L>(
    state: FilterRead<'a, L>,
    reply: NotesReply<E, L>,
    step: FilterReadStep<'a, E, L>,
    request: NotesRequest,
)
    requires
        state is List && reply is FromList && reply->FromList_0 is Ok || state is Parse && reply
            is Deserialized && 0 <= state->promotion.next() < state->promotion.entries().len(),
        state.goes_on(reply, step),
    ensures
        ({
            let (notes, start) = match state {
                FilterRead::Parse { promotion } => (promotion.cached(), promotion.next() + 1),
                FilterRead::List { cached, .. } => (cached@, 0),
                _ => (Map::empty(), 0),
            };
            match step {
                Step::Ask(FilterRead::Parse { promotion }) => {
                    let entries = promotion.entries();
                    &&& promotion.cached() == notes
                    &&& start <= promotion.next() < entries.len()
                    &&& entries[promotion.next()] matches CommitAuthorship::NoLog { sha, .. }
                    &&& notes.contains_key(sha@)
                    &&& step->Ask_0.needs(request) ==> (
                    request matches NotesRequest::Deserialize { content } && content@
                        == notes[sha@]@)
                    &&& forall|k: int|
                        start <= k < promotion.next() ==> !lacks_a_cached_log(
                            #[trigger] entries[k],
                            notes,
                        )
                    &&& reply matches NotesReply::FromList(Ok(listed)) ==> entries == listed@
                },
                Step::Done(Ok(result)) => {
                    &&& forall|k: int|
                        start <= k < result@.len() ==> !lacks_a_cached_log(
                            #[trigger] result@[k],
                            notes,
                        )
                    &&& reply matches NotesReply::FromList(Ok(listed)) ==> result@ == listed@
                },
                _ => false,
            }
        }),
{
    match (state, reply) {
        (FilterRead::List { cached, .. }, NotesReply::FromList(Ok(entries))) => {
            lemma_first_promotable(entries@, cached@, 0);
        },
        (FilterRead::Parse { promotion }, NotesReply::Deserialized(result)) => {
            let entries = promotion.entries();
            let next = promotion.next();
            lemma_first_promotable(
                entries.update(next, promoted(entries[next], result)),
                promotion.cached(),
                next + 1,
            );
        },
        _ => {},
    }
}

/// A materialization ends with the first failure of git, as it is; and where git
/// read the stream, with the number of notes in it.
pub proof fn law_a_materialization_ends_as_git_says<'a, E, L>(
    state: Materialization<'a>,
    reply: NotesReply<E, L>,
    step: MaterializationStep<'a, E>,
)
    requires
        state.goes_on(reply, step),
    ensures
        match (state, reply) {
            (Materialization::RevList { .. }, NotesReply::Output(Err(e))) => {
                step == MaterializationStep::<'a, E>::Done(Err(GitAiError::Host(e)))
            },
            (Materialization::RevList { .. }, NotesReply::Output(Ok(_))) => step is Ask,
            (Materialization::Db { .. }, NotesReply::Notes(DbAccess::Success(notes))) => {
                &&& step matches Step::Ask(Materialization::Import { count, .. })
                &&& count == notes.listed().len()
            },
            (Materialization::Db { .. }, NotesReply::Notes(_)) => {
                step == MaterializationStep::<'a, E>::Done(Ok(0))
            },
            (Materialization::Import { .. }, NotesReply::Imported(Err(e))) => {
                step == MaterializationStep::<'a, E>::Done(Err(GitAiError::Host(e)))
            },
            (Materialization::Import { count, .. }, NotesReply::Imported(Ok(_))) => {
                step == MaterializationStep::<'a, E>::Done(Ok(count))
            },
            _ => step == MaterializationStep::<'a, E>::Ask(state),
        },
{
}

/// An answer that an operation did not ask for changes nothing.
pub proof fn law_other_answers_change_nothing<'a, E, L>(
    write: NotesWrite<'a>,
    read: NoteRead<'a>,
    authorship: AuthorshipRead<'a>,
    blobs: BlobOidsRead<'a>,
    filter: FilterRead<'a, L>,
    search: NotesSearch<'a>,
    reply: NotesReply<E, L>,
    written: NotesWriteStep<'a, E>,
    filtered: FilterReadStep<'a, E, L>,
)
    requires
        write.goes_on(reply, written),
        filter.goes_on(reply, filtered),
    ensures
        !(match write {
            NotesWrite::Db { .. } | NotesWrite::DbBatch { .. } => reply is Upserted,
            NotesWrite::Submit => reply is Submitted,
            NotesWrite::Git { .. } | NotesWrite::GitBatch { .. } => reply is Added,
        }) ==> written == NotesWriteStep::<'a, E>::Ask(write),
        !(match read {
            NoteRead::Db { .. } => reply is Note,
            NoteRead::Git { .. } => reply is Shown,
        }) ==> read.then_step(reply) == NoteReadStep::<'a>::Ask(read),
        !(match authorship {
            AuthorshipRead::Db { .. } => reply is Note,
            AuthorshipRead::Parse { .. } => reply is Deserialized,
            AuthorshipRead::Git { .. } => reply is Authorship,
        }) ==> authorship.then_step(reply) == AuthorshipReadStep::<'a, L>::Ask(authorship),
        !(reply is BlobOids) ==> blobs.then_step(reply) == BlobOidsReadStep::<'a, E>::Ask(blobs),
        !(match filter {
            FilterRead::Db { .. } => reply is Notes,
            FilterRead::List { .. } | FilterRead::Git { .. } => reply is FromList,
            FilterRead::Parse { .. } => reply is Deserialized,
        }) ==> filtered == FilterReadStep::<'a, E, L>::Ask(filter),
        !(reply is Grepped) ==> search.then_step(reply) == NotesSearchStep::<'a, E>::Ask(search),
{
}

} // verus!
