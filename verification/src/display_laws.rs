//! Laws of the materialization of notes, from the first request to the result.
use crate::fast_import::display_ref;
use crate::fast_import_laws::{
    display_commit, law_display_holds_exactly_the_notes, lemma_tree_of_entries, note_tree, Tree,
};
use crate::fast_import_reading::{is_plain_path, law_display_stream_reads_back};
use crate::notes_api::{
    begins_materialization, listed_commits, rev_list_args, GitAiError, Materialization,
    MaterializationStep, NotesRequest,
};
use crate::notes_laws::{completed, fits, left_behind, outcome, NotesExchange, NotesWorld};
use crate::text::{
    decimal, is_white_space, line_pieces, non_blank_lines, output_text, texts, trimmed, trimmed_end,
    trimmed_start,
};
use crate::text_map::{entry_keys, lemma_entry, lemma_listed, text_values, TextMap};
use crate::value_laws::{as_lines, law_lines_are_listed};
use vstd::prelude::*;

verus! {

impl<L> NotesWorld<L> {
    /// The latest commits, as git lists them.
    pub open spec fn latest(self, global_args: Seq<String>, limit: nat) -> Seq<Seq<char>> {
        listed_commits((self.output)(rev_list_args(global_args, limit)))
    }

    /// The notes in the database of the latest commits.
    pub open spec fn displayed(self, global_args: Seq<String>, limit: nat) -> Tree {
        self.db.restrict(self.latest(global_args, limit).to_set())
    }
}

/// Whether no commit begins with a quotation mark; git would read its name as
/// quoted.
pub open spec fn unquoted(commits: Seq<Seq<char>>) -> bool {
    forall|i: int| 0 <= i < commits.len() ==> (#[trigger] commits[i])[0] != '"'
}

proof fn lemma_trimmed_start(s: Seq<char>, c: char)
    requires
        trimmed_start(s).contains(c),
    ensures
        s.contains(c),
    decreases s.len(),
{
    if s.len() > 0 && is_white_space(s[0]) {
        lemma_trimmed_start(s.drop_first(), c);
        assert(s[s.drop_first().index_of(c) + 1] == c);
    }
}

proof fn lemma_trimmed_end(s: Seq<char>, c: char)
    requires
        trimmed_end(s).contains(c),
    ensures
        s.contains(c),
    decreases s.len(),
{
    if s.len() > 0 && is_white_space(s.last()) {
        lemma_trimmed_end(s.drop_last(), c);
        assert(s[s.drop_last().index_of(c)] == c);
    }
}

proof fn lemma_line_pieces(s: Seq<char>)
    ensures
        line_pieces(s).len() > 0,
        forall|i: int|
            0 <= i < line_pieces(s).len() ==> !(#[trigger] line_pieces(s)[i]).contains('\n'),
    decreases s.len(),
{
    if s.len() > 0 {
        let before = line_pieces(s.drop_last());
        let after = line_pieces(s);
        lemma_line_pieces(s.drop_last());
        let last = before.last();
        assert(!before[before.len() - 1].contains('\n'));
        if s.last() != '\n' {
            assert(!last.push(s.last()).contains('\n')) by {
                assert forall|i: int| 0 <= i < last.push(s.last()).len() implies last.push(
                    s.last(),
                )[i] != '\n' by {
                    if i < last.len() {
                        assert(last.contains(last[i]));
                    }
                }
            }
        }
        assert forall|i: int| 0 <= i < after.len() implies !(#[trigger] after[i]).contains(
            '\n',
        ) by {
            if s.last() == '\n' {
                if i < before.len() {
                    assert(after[i] == before[i]);
                }
            } else if i < before.len() - 1 {
                assert(after[i] == before[i]);
            }
        }
    }
}

/// The commits that git lists are names without line feeds.
proof fn lemma_listed_lines(s: Seq<char>, i: int)
    requires
        0 <= i < non_blank_lines(s).len(),
    ensures
        non_blank_lines(s)[i].len() > 0,
        !non_blank_lines(s)[i].contains('\n'),
{
    let pieces = line_pieces(s);
    let trim = |line: Seq<char>| trimmed(line);
    let keep = |line: Seq<char>| line.len() > 0;
    let lines = pieces.map_values(trim);
    let line = non_blank_lines(s)[i];
    lemma_line_pieces(s);
    lines.lemma_filter_pred(keep, i);
    assert(lines.filter(keep).contains(line));
    lines.lemma_filter_contains_rev(keep, line);
    let j = lines.index_of(line);
    assert(line == trimmed(pieces[j]));
    if line.contains('\n') {
        lemma_trimmed_end(trimmed_start(pieces[j]), '\n');
        lemma_trimmed_start(pieces[j], '\n');
    }
}

/// The notes that the database gives for the latest commits can be written as
/// they are, and make the tree for display.
proof fn lemma_displayed<L>(
    world: NotesWorld<L>,
    global_args: Seq<String>,
    limit: nat,
    notes: TextMap<String>,
)
    requires
        unquoted(world.latest(global_args, limit)),
        entry_keys(notes.listed()).no_duplicates(),
        text_values(notes@) == world.displayed(global_args, limit),
    ensures
        forall|i: int|
            0 <= i < notes.listed().len() ==> is_plain_path((#[trigger] notes.listed()[i]).0@),
        note_tree(notes.listed()) == world.displayed(global_args, limit),
        notes.listed().len() == world.displayed(global_args, limit).dom().len(),
{
    let commits = world.latest(global_args, limit);
    let listed = notes.listed();
    let keys = entry_keys(listed);
    lemma_listed(notes);
    lemma_tree_of_entries(listed);
    keys.unique_seq_to_set();
    assert(notes@.dom() =~= keys.to_set());
    assert(text_values(notes@).dom() =~= notes@.dom());
    assert forall|i: int| 0 <= i < listed.len() implies is_plain_path(
        (#[trigger] listed[i]).0@,
    ) by {
        let sha = listed[i].0@;
        lemma_entry(listed, i);
        assert(text_values(notes@).contains_key(sha));
        assert(commits.contains(sha));
        let j = commits.index_of(sha);
        lemma_listed_lines(
            output_text((world.output)(rev_list_args(global_args, limit))),
            j,
        );
    }
}

/// A materialization with a database that can be used, or without commits to
/// look for, succeeds, whatever the repository held before. Then the display
/// ref holds exactly the notes of the latest commits that have one, nothing of
/// what it held earlier, and the result is their number; all else is as it was.
pub proof fn law_materialization_displays_the_notes<'a, E, L>(
    world: NotesWorld<L>,
    global_args: &'a [String],
    limit: usize,
    first: MaterializationStep<'a, E>,
    talk: Seq<NotesExchange<Materialization<'a>, E, L>>,
)
    requires
        begins_materialization(first, global_args, limit),
        completed(world, first, talk),
        world.db_works || world.latest(global_args@, limit as nat).len() == 0,
        unquoted(world.latest(global_args@, limit as nat)),
    ensures
        outcome(first, talk) matches Ok(count) && count == world.displayed(
            global_args@,
            limit as nat,
        ).dom().len(),
        left_behind(world, talk) == world.with_refs(
            world.refs.insert(
                display_ref(),
                display_commit(world.displayed(global_args@, limit as nat)),
            ),
        ),
{
    let commits = world.latest(global_args@, limit as nat);
    let displayed = world.displayed(global_args@, limit as nat);
    assert(talk.len() > 0);
    assert(fits(world, first, talk, 0));
    if commits.len() == 0 {
        let none: Seq<(String, String)> = Seq::empty();
        assert(displayed =~= Map::empty());
        assert(talk.len() > 1);
        assert(fits(world, first, talk, 1));
        law_display_stream_reads_back(none);
        law_display_holds_exactly_the_notes(world.refs, global_args@, none);
        if talk.len() > 2 {
            assert(fits(world, first, talk, 2));
        }
    } else {
        assert(talk.len() > 1);
        assert(fits(world, first, talk, 1));
        let notes = talk[1].reply->Notes_0->Success_0;
        assert(text_values(notes@) =~= displayed);
        lemma_displayed(world, global_args@, limit as nat, notes);
        assert(talk.len() > 2);
        assert(fits(world, first, talk, 2));
        law_display_stream_reads_back(notes.listed());
        law_display_holds_exactly_the_notes(world.refs, global_args@, notes.listed());
        if talk.len() > 3 {
            assert(fits(world, first, talk, 3));
        }
    }
}

/// A materialization after which nothing has changed, done again, gives the
/// same number and leaves everything as it is.
pub proof fn law_materializing_again_changes_nothing<'a, E, L>(
    world: NotesWorld<L>,
    global_args: &'a [String],
    limit: usize,
    first: MaterializationStep<'a, E>,
    talk: Seq<NotesExchange<Materialization<'a>, E, L>>,
    first_again: MaterializationStep<'a, E>,
    talk_again: Seq<NotesExchange<Materialization<'a>, E, L>>,
)
    requires
        begins_materialization(first, global_args, limit),
        completed(world, first, talk),
        begins_materialization(first_again, global_args, limit),
        completed(left_behind(world, talk), first_again, talk_again),
        world.db_works || world.latest(global_args@, limit as nat).len() == 0,
        unquoted(world.latest(global_args@, limit as nat)),
    ensures
        outcome(first, talk) is Ok,
        outcome(first_again, talk_again) == outcome(first, talk),
        left_behind(left_behind(world, talk), talk_again) == left_behind(world, talk),
{
    let after = left_behind(world, talk);
    law_materialization_displays_the_notes(world, global_args, limit, first, talk);
    law_materialization_displays_the_notes(after, global_args, limit, first_again, talk_again);
    assert(left_behind(after, talk_again).refs =~= after.refs);
}

/// A materialization with commits to look for, and a database that cannot be
/// used, gives zero and changes nothing.
pub proof fn law_materialization_needs_the_database<'a, E, L>(
    world: NotesWorld<L>,
    global_args: &'a [String],
    limit: usize,
    first: MaterializationStep<'a, E>,
    talk: Seq<NotesExchange<Materialization<'a>, E, L>>,
)
    requires
        begins_materialization(first, global_args, limit),
        completed(world, first, talk),
        !world.db_works,
        world.latest(global_args@, limit as nat).len() > 0,
    ensures
        outcome(first, talk) == Ok::<usize, GitAiError<E>>(0),
        left_behind(world, talk) == world,
{
    assert(talk.len() > 0);
    assert(fits(world, first, talk, 0));
    assert(talk.len() > 1);
    assert(fits(world, first, talk, 1));
    if talk.len() > 2 {
        assert(fits(world, first, talk, 2));
    }
}

/// Whether a text can name a commit: it is not empty, holds no line feed, has no
/// white space at its ends and does not begin with a quotation mark.
pub open spec fn names_a_commit(name: Seq<char>) -> bool {
    &&& name.len() > 0
    &&& !name.contains('\n')
    &&& !is_white_space(name[0])
    &&& !is_white_space(name.last())
    &&& name[0] != '"'
}

/// The commits in what git writes are all that it lists, in order: the lines of
/// its output, whatever their number.
pub proof fn law_all_listed_commits_are_read(commits: Seq<Seq<char>>)
    requires
        forall|i: int| 0 <= i < commits.len() ==> names_a_commit(#[trigger] commits[i]),
    ensures
        listed_commits(vstd::utf8::encode_utf8(as_lines(commits))) == commits,
{
    let text = as_lines(commits);
    vstd::utf8::encode_utf8_valid_utf8(text);
    vstd::utf8::encode_utf8_decode_utf8(text);
    law_lines_are_listed(commits);
}

/// Where git, asked in the repository for the latest `n` commits, lists the
/// first `n` of a history, a line each: a materialization displays the notes of
/// the first `limit` commits of the history, all of them and no others, and
/// gives their number.
pub proof fn law_the_latest_commits_are_displayed<'a, E, L>(
    world: NotesWorld<L>,
    global_args: &'a [String],
    limit: usize,
    history: Seq<Seq<char>>,
    first: MaterializationStep<'a, E>,
    talk: Seq<NotesExchange<Materialization<'a>, E, L>>,
)
    requires
        begins_materialization(first, global_args, limit),
        completed(world, first, talk),
        world.db_works,
        forall|i: int| 0 <= i < history.len() ==> names_a_commit(#[trigger] history[i]),
        (world.output)(
            texts(global_args@) + seq![
                "rev-list"@,
                "--max-count="@ + decimal(limit as nat),
                "HEAD"@,
            ],
        ) == vstd::utf8::encode_utf8(
            as_lines(
                if limit < history.len() {
                    history.take(limit as int)
                } else {
                    history
                },
            ),
        ),
    ensures
        left_behind(world, talk).refs.contains_key("refs/notes/ai-display"@),
        ({
            let tree = left_behind(world, talk).refs["refs/notes/ai-display"@].tree;
            &&& forall|sha: Seq<char>| #[trigger]
                tree.contains_key(sha) <==> world.db.contains_key(sha) && exists|i: int|
                    0 <= i < limit && i < history.len() && #[trigger] history[i] == sha
            &&& forall|sha: Seq<char>| #[trigger]
                tree.contains_key(sha) ==> tree[sha] == world.db[sha]
            &&& outcome(first, talk) matches Ok(count) && count == tree.dom().len()
        }),
        ({
            let commit = left_behind(world, talk).refs["refs/notes/ai-display"@];
            &&& commit.parents.len() == 0
            &&& commit.author == "git-ai <git-ai@localhost> 1000000000 +0000"@
            &&& commit.committer == "git-ai <git-ai@localhost> 1000000000 +0000"@
            &&& commit.message.len() == 0
        }),
        forall|name: Seq<char>|
            name != "refs/notes/ai-display"@ ==> (#[trigger] left_behind(
                world,
                talk,
            ).refs.contains_key(name) <==> world.refs.contains_key(name)) && (
            world.refs.contains_key(name) ==> left_behind(world, talk).refs[name]
                == world.refs[name]),
        left_behind(world, talk).db == world.db,
        left_behind(world, talk).git == world.git,
        left_behind(world, talk).sent == world.sent,
{
    let listed = if limit < history.len() {
        history.take(limit as int)
    } else {
        history
    };
    assert forall|i: int| 0 <= i < listed.len() implies names_a_commit(#[trigger] listed[i]) by {
        assert(listed[i] == history[i]);
    }
    law_all_listed_commits_are_read(listed);
    assert(world.latest(global_args@, limit as nat) == listed);
    assert(unquoted(listed));
    law_materialization_displays_the_notes(world, global_args, limit, first, talk);
    let tree = world.displayed(global_args@, limit as nat);
    assert forall|sha: Seq<char>| #[trigger]
        tree.contains_key(sha) <==> world.db.contains_key(sha) && exists|i: int|
            0 <= i < limit && i < history.len() && #[trigger] history[i] == sha by {
        if tree.contains_key(sha) {
            assert(listed.contains(sha));
            let i = listed.index_of(sha);
            assert(history[i] == sha);
        }
        if exists|i: int| 0 <= i < limit && i < history.len() && #[trigger] history[i] == sha {
            let i = choose|i: int|
                0 <= i < limit && i < history.len() && #[trigger] history[i] == sha;
            assert(listed[i] == sha);
        }
    }
}

/// Git is run in the repository, once to list the latest `limit` commits and
/// once to import by force, and in no other way.
pub proof fn law_git_is_run_in_the_repository<'a, E, L>(
    world: NotesWorld<L>,
    global_args: &'a [String],
    limit: usize,
    first: MaterializationStep<'a, E>,
    talk: Seq<NotesExchange<Materialization<'a>, E, L>>,
    k: int,
)
    requires
        begins_materialization(first, global_args, limit),
        completed(world, first, talk),
        0 <= k < talk.len(),
    ensures
        talk[k].request matches NotesRequest::GitExec { args } ==> k == 0 && texts(args@) == texts(
            global_args@,
        ) + seq!["rev-list"@, "--max-count="@ + decimal(limit as nat), "HEAD"@],
        talk[k].request matches NotesRequest::GitExecStdin { args, .. } ==> k > 0 && texts(args@)
            == texts(global_args@) + seq!["fast-import"@, "--quiet"@, "--force"@],
        talk[k].request is GitExec || talk[k].request is GitExecStdin || talk[k].request
            is DbGetMany,
{
    assert(fits(world, first, talk, 0));
    if k > 0 {
        assert(fits(world, first, talk, 1));
    }
    if k > 1 {
        assert(fits(world, first, talk, 2));
    }
    if k > 2 {
        assert(fits(world, first, talk, 3));
    }
}

} // verus!
