//! What `git fast-import` makes of a stream, and laws of the stream for display.
use crate::fast_import::{
    blob_commands, display_commands, display_committer, display_ref, note_changes, FileChange,
    ImportCommand,
};
use crate::notes_api::fast_import_args;
use crate::text::texts;
use crate::text_map::{entry_keys, entry_map, lemma_entry, text_values, with_entries};
use vstd::prelude::*;

verus! {

/// A tree: contents by path.
pub type Tree = Map<Seq<char>, Seq<char>>;

/// A commit. Two commits that say the same are the same commit.
pub struct GitCommit {
    pub parents: Seq<GitCommit>,
    pub author: Seq<char>,
    pub committer: Seq<char>,
    pub message: Seq<char>,
    pub tree: Tree,
}

impl GitCommit {
    /// Whether `other` is in the history of the commit, which begins with the
    /// commit itself.
    pub open spec fn contains(self, other: GitCommit) -> bool
        decreases self,
    {
        ||| self == other
        ||| exists|i: int|
            0 <= i < self.parents.len() && (#[trigger] self.parents[i]).contains(other)
    }
}

/// What `git fast-import` works on: whether it is forced, the refs of the
/// repository, the blobs stored under marks, and the branches it has made so
/// far, some of which have no commit yet. Branches begin with nothing, whatever
/// the refs of the same names hold.
pub struct ImportState {
    pub force: bool,
    pub refs: Map<Seq<char>, GitCommit>,
    pub marks: Map<nat, Seq<char>>,
    pub branches: Map<Seq<char>, Option<GitCommit>>,
}

/// Whether git is run with these arguments to import by force.
pub open spec fn is_forced(args: Seq<Seq<char>>) -> bool {
    exists|i: int, j: int|
        0 <= i < j < args.len() && #[trigger] args[i] == "fast-import"@ && #[trigger] args[j]
            == "--force"@
}

/// A tree after a change.
pub open spec fn changed(
    tree: Tree,
    marks: Map<nat, Seq<char>>,
    change: FileChange,
) -> Tree {
    match change {
        FileChange::Delete { path } => tree.remove(path),
        FileChange::Modify { mark, path } => tree.insert(path, marks[mark]),
    }
}

/// A tree after changes, one after the other.
pub open spec fn changed_by(
    tree: Tree,
    marks: Map<nat, Seq<char>>,
    changes: Seq<FileChange>,
) -> Tree
    decreases changes.len(),
{
    if changes.len() == 0 {
        tree
    } else {
        changed(changed_by(tree, marks, changes.drop_last()), marks, changes.last())
    }
}

impl ImportState {
    /// How git begins to import, run with these arguments.
    pub open spec fn start(refs: Map<Seq<char>, GitCommit>, args: Seq<Seq<char>>) -> ImportState {
        ImportState {
            force: is_forced(args),
            refs,
            marks: Map::empty(),
            branches: Map::empty(),
        }
    }

    /// The latest commit of a branch, if there is one.
    pub open spec fn tip(self, name: Seq<char>) -> Option<GitCommit> {
        if self.branches.contains_key(name) {
            self.branches[name]
        } else {
            None
        }
    }

    /// A commit to a branch.
    pub open spec fn commit(
        self,
        name: Seq<char>,
        committer: Seq<char>,
        changes: Seq<FileChange>,
    ) -> GitCommit {
        let (parents, tree) = match self.tip(name) {
            Some(tip) => (seq![tip], tip.tree),
            None => (Seq::empty(), Map::empty()),
        };
        GitCommit {
            parents,
            author: committer,
            committer,
            message: Seq::empty(),
            tree: changed_by(tree, self.marks, changes),
        }
    }

    /// The state after a command.
    pub open spec fn after(self, command: ImportCommand) -> ImportState {
        match command {
            ImportCommand::Blob { mark, data } => ImportState {
                marks: self.marks.insert(mark, data),
                ..self
            },
            ImportCommand::Reset { name } => ImportState {
                branches: self.branches.insert(name, None),
                ..self
            },
            ImportCommand::Commit { name, committer, changes } => ImportState {
                branches: self.branches.insert(name, Some(self.commit(name, committer, changes))),
                ..self
            },
        }
    }

    /// The state after commands, one after the other.
    pub open spec fn after_all(self, commands: Seq<ImportCommand>) -> ImportState
        decreases commands.len(),
    {
        if commands.len() == 0 {
            self
        } else {
            self.after_all(commands.drop_last()).after(commands.last())
        }
    }

    /// Whether git lets the ref go to the branch of the same name, if there is
    /// one. Unless it is forced, it refuses to leave a commit that is not in
    /// the history of the branch.
    pub open spec fn accepts(self, name: Seq<char>) -> bool {
        self.tip(name) matches Some(tip) ==> self.force || !self.refs.contains_key(name)
            || tip.contains(self.refs[name])
    }

    /// Whether the import succeeds.
    pub open spec fn succeeds(self) -> bool {
        forall|name: Seq<char>| #[trigger] self.accepts(name)
    }

    /// The refs after the import. A ref that git refuses to move stays.
    pub open spec fn left_refs(self) -> Map<Seq<char>, GitCommit> {
        Map::new(
            |name: Seq<char>| self.refs.contains_key(name) || self.tip(name) is Some,
            |name: Seq<char>|
                match self.tip(name) {
                    Some(tip) => if self.accepts(name) {
                        tip
                    } else {
                        self.refs[name]
                    },
                    None => self.refs[name],
                },
        )
    }
}

/// The notes, each a pair of commit and content, as a tree.
pub open spec fn note_tree(notes: Seq<(String, String)>) -> Tree {
    with_entries(Map::empty(), notes)
}

proof fn lemma_blobs(state: ImportState, notes: Seq<(String, String)>, n: int)
    requires
        0 <= n <= notes.len(),
    ensures
        state.after_all(blob_commands(notes).take(n)).force == state.force,
        state.after_all(blob_commands(notes).take(n)).refs == state.refs,
        state.after_all(blob_commands(notes).take(n)).branches == state.branches,
        forall|i: int|
            0 <= i < n ==> #[trigger] state.after_all(
                blob_commands(notes).take(n),
            ).marks[(i + 1) as nat] == notes[i].1@,
    decreases n,
{
    let commands = blob_commands(notes);
    if n > 0 {
        lemma_blobs(state, notes, n - 1);
        assert(commands.take(n).drop_last() =~= commands.take(n - 1));
        assert(commands.take(n).last() == commands[n - 1]);
        let before = state.after_all(commands.take(n - 1));
        let after = state.after_all(commands.take(n));
        assert(after == before.after(commands[n - 1]));
        assert forall|i: int| 0 <= i < n implies #[trigger] after.marks[(i + 1) as nat]
            == notes[i].1@ by {
            if i < n - 1 {
                assert(before.marks[(i + 1) as nat] == notes[i].1@);
            }
        }
    } else {
        assert(commands.take(0) =~= Seq::empty());
    }
}

proof fn lemma_note_changes(marks: Map<nat, Seq<char>>, notes: Seq<(String, String)>)
    requires
        forall|i: int| 0 <= i < notes.len() ==> #[trigger] marks[(i + 1) as nat] == notes[i].1@,
    ensures
        changed_by(Map::empty(), marks, note_changes(notes)) == note_tree(
            notes,
        ),
    decreases notes.len(),
{
    if notes.len() > 0 {
        let before = notes.drop_last();
        assert forall|i: int| 0 <= i < before.len() implies #[trigger] marks[(i + 1) as nat]
            == before[i].1@ by {
            assert(marks[(i + 1) as nat] == notes[i].1@);
        }
        lemma_note_changes(marks, before);
        let path = notes.last().0@;
        let changes = note_changes(before);
        let delete = FileChange::Delete { path };
        let modify = FileChange::Modify { mark: notes.len(), path };
        assert(changes.push(delete).push(modify).drop_last() =~= changes.push(delete));
        assert(changes.push(delete).drop_last() =~= changes);
        let tree = changed_by(Map::empty(), marks, changes);
        assert(changed_by(Map::empty(), marks, changes.push(delete)) == tree.remove(path));
        let last = notes.len() - 1;
        assert(marks[(last + 1) as nat] == notes[last].1@);
        assert(tree.remove(path).insert(path, notes.last().1@) =~= tree.insert(
            path,
            notes.last().1@,
        ));
    }
}

/// The commit that holds a tree for display.
pub open spec fn display_commit(tree: Tree) -> GitCommit {
    GitCommit {
        parents: Seq::empty(),
        author: display_committer(),
        committer: display_committer(),
        message: Seq::empty(),
        tree,
    }
}

/// The commands for display make one branch, with one commit.
proof fn lemma_display_branch(
    refs: Map<Seq<char>, GitCommit>,
    args: Seq<Seq<char>>,
    notes: Seq<(String, String)>,
)
    ensures
        ({
            let done = ImportState::start(refs, args).after_all(display_commands(notes));
            &&& done.force == is_forced(args)
            &&& done.refs == refs
            &&& done.branches == Map::<Seq<char>, Option<GitCommit>>::empty().insert(
                display_ref(),
                Some(display_commit(note_tree(notes))),
            )
        }),
{
    let before = ImportState::start(refs, args);
    let blobs = blob_commands(notes);
    let name = display_ref();
    let committer = display_committer();
    let changes = note_changes(notes);
    let reset = ImportCommand::Reset { name };
    let commit = ImportCommand::Commit { name, committer, changes };
    lemma_blobs(before, notes, notes.len() as int);
    assert(blobs.take(notes.len() as int) =~= blobs);
    assert(blobs.push(reset).drop_last() =~= blobs);
    assert(blobs.push(reset).push(commit).drop_last() =~= blobs.push(reset));
    let stored = before.after_all(blobs);
    let cleared = before.after_all(blobs.push(reset));
    assert(cleared == stored.after(reset));
    assert(cleared.tip(name) is None);
    lemma_note_changes(stored.marks, notes);
    let done = before.after_all(blobs.push(reset).push(commit));
    assert(done == cleared.after(commit));
    assert(cleared.commit(name, committer, changes) == display_commit(note_tree(notes)));
    assert(done.branches =~= Map::empty().insert(name, Some(display_commit(note_tree(notes)))));
}

/// Whatever a repository held before, git accepts the commands for display when
/// it is run as it is for a materialization. Then the display ref holds exactly
/// the notes, and all other refs are as they were.
pub proof fn law_display_holds_exactly_the_notes(
    refs: Map<Seq<char>, GitCommit>,
    global_args: Seq<String>,
    notes: Seq<(String, String)>,
)
    ensures
        ({
            let done = ImportState::start(refs, fast_import_args(global_args)).after_all(
                display_commands(notes),
            );
            &&& done.succeeds()
            &&& done.left_refs() == refs.insert(display_ref(), display_commit(note_tree(notes)))
        }),
{
    let args = fast_import_args(global_args);
    let n = texts(global_args).len() as int;
    assert(args[n] == "fast-import"@ && args[n + 2] == "--force"@);
    lemma_display_branch(refs, args, notes);
    let done = ImportState::start(refs, args).after_all(display_commands(notes));
    assert(done.succeeds());
    assert(done.accepts(display_ref()));
    assert(done.left_refs() =~= refs.insert(display_ref(), display_commit(note_tree(notes))));
}

/// Run without force, git refuses the commands for display where the display
/// ref holds a commit other than the one they make; all refs stay as they were.
pub proof fn law_an_unforced_import_is_refused(
    refs: Map<Seq<char>, GitCommit>,
    args: Seq<Seq<char>>,
    notes: Seq<(String, String)>,
)
    requires
        !is_forced(args),
        refs.contains_key(display_ref()),
        refs[display_ref()] != display_commit(note_tree(notes)),
    ensures
        ({
            let done = ImportState::start(refs, args).after_all(display_commands(notes));
            !done.succeeds() && done.left_refs() == refs
        }),
{
    lemma_display_branch(refs, args, notes);
    let done = ImportState::start(refs, args).after_all(display_commands(notes));
    assert(!display_commit(note_tree(notes)).contains(refs[display_ref()]));
    assert(!done.accepts(display_ref()));
    assert(done.left_refs() =~= refs);
}

/// The entries of a map, as a tree, are the texts of the map.
pub proof fn lemma_tree_of_entries(entries: Seq<(String, String)>)
    requires
        entry_keys(entries).no_duplicates(),
    ensures
        note_tree(entries) == text_values(entry_map(entries)),
    decreases entries.len(),
{
    let map = entry_map(entries);
    let keys = entry_keys(entries);
    if entries.len() == 0 {
        assert(keys =~= Seq::empty());
        assert(note_tree(entries) =~= text_values(map));
    } else {
        let before = entries.drop_last();
        let last = entries.len() - 1;
        let earlier = entry_keys(before);
        assert(earlier =~= keys.drop_last());
        assert(earlier.no_duplicates());
        lemma_tree_of_entries(before);
        let small = entry_map(before);
        lemma_entry(entries, last);
        assert forall|key: Seq<char>| keys.contains(key) <==> earlier.contains(key) || key
            == keys[last] by {
            if keys.contains(key) {
                let i = keys.index_of(key);
                if i < last {
                    assert(earlier[i] == key);
                }
            }
            if earlier.contains(key) {
                assert(keys[earlier.index_of(key)] == key);
            }
        }
        assert forall|key: Seq<char>| earlier.contains(key) implies map[key] == small[key] by {
            let i = earlier.index_of(key);
            assert(entries[i] == before[i]);
            lemma_entry(entries, i);
            lemma_entry(before, i);
        }
        assert(!earlier.contains(keys[last])) by {
            if earlier.contains(keys[last]) {
                assert(keys[earlier.index_of(keys[last])] == keys[last]);
            }
        }
        assert(note_tree(entries) =~= text_values(map));
    }
}

} // verus!
