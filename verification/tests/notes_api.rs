//! Notes against a repository and a database in memory.
use git_ai::notes_api::{
    commits_with_notes, filter_commits_with_notes, http_check_exists, http_read_note,
    http_read_notes, http_write_batch, http_write_note, materialize_notes_for_display,
    read_authorship, read_authorship_v3, read_note, read_note_blob_oids, search_notes, write_note,
    write_notes_batch, CommitAuthorship, DbAccess, FilterReadStep, GitAiError, MaterializationStep,
    NotesBackendKind, NotesReply, NotesRequest,
};
use git_ai::step::Step;
use git_ai::text_map::{TextMap, TextSet};
use std::collections::BTreeMap;

/// What is wrong with the database.
#[derive(Clone, Copy, PartialEq)]
enum Fault {
    Absent,
    NotOpened,
    NotLocked,
    Failed,
}

type Reply = NotesReply<String, String>;

/// A repository and a notes database.
struct Host {
    fault: Fault,
    git_fails: bool,
    db: BTreeMap<String, String>,
    pending: Vec<String>,
    submitted: usize,
    git_notes: BTreeMap<String, String>,
    refs: BTreeMap<String, Vec<BTreeMap<String, String>>>,
    rev_list: Vec<u8>,
    streams: Vec<String>,
    asked: Vec<String>,
}

impl Host {
    fn new() -> Host {
        Host {
            fault: Fault::Absent,
            git_fails: false,
            db: BTreeMap::new(),
            pending: Vec::new(),
            submitted: 0,
            git_notes: BTreeMap::new(),
            refs: BTreeMap::new(),
            rev_list: Vec::new(),
            streams: Vec::new(),
            asked: Vec::new(),
        }
    }

    fn access<T>(&self, value: T) -> DbAccess<T, String> {
        match self.fault {
            Fault::Absent => DbAccess::Success(value),
            Fault::NotOpened => DbAccess::NotOpened("cannot open".to_string()),
            Fault::NotLocked => DbAccess::NotLocked("poisoned".to_string()),
            Fault::Failed => DbAccess::Failed("disk full".to_string()),
        }
    }

    fn git<T>(&self, value: T) -> Result<T, String> {
        if self.git_fails {
            Err("git failed".to_string())
        } else {
            Ok(value)
        }
    }

    fn upsert(&mut self, commit_sha: &str, content: &str) {
        if self.fault == Fault::Absent {
            self.db.insert(commit_sha.to_string(), content.to_string());
            self.pending.push(commit_sha.to_string());
        }
    }

    fn get_note(&self, commit_sha: &str) -> DbAccess<Option<String>, String> {
        self.access(self.db.get(commit_sha).cloned())
    }

    fn get_notes(&self, commit_shas: &[String]) -> DbAccess<TextMap<String>, String> {
        let mut notes = TextMap::new();
        for sha in commit_shas {
            if let Some(content) = self.db.get(sha) {
                notes.insert(sha.clone(), content.clone());
            }
        }
        self.access(notes)
    }

    fn log_of(&self, commit_sha: &str) -> Option<String> {
        self.git_notes.get(commit_sha).and_then(|note| parse_log(note).ok())
    }

    fn perform(&mut self, request: NotesRequest<'_>) -> Reply {
        match request {
            NotesRequest::DbUpsert { commit_sha, content } => {
                self.asked.push("db upsert".to_string());
                self.upsert(commit_sha, content);
                NotesReply::Upserted(self.access(()))
            }
            NotesRequest::DbUpsertBatch { entries } => {
                self.asked.push("db upsert batch".to_string());
                for (sha, content) in entries {
                    self.upsert(sha, content);
                }
                NotesReply::Upserted(self.access(()))
            }
            NotesRequest::SubmitNotes => {
                self.asked.push("submit".to_string());
                self.submitted += 1;
                NotesReply::Submitted
            }
            NotesRequest::DbGet { commit_sha } => {
                self.asked.push("db get".to_string());
                NotesReply::Note(self.get_note(commit_sha))
            }
            NotesRequest::DbGetMany { commit_shas } => {
                self.asked.push("db get many".to_string());
                NotesReply::Notes(self.get_notes(commit_shas))
            }
            NotesRequest::GitAdd { commit_sha, content } => {
                self.asked.push("git add".to_string());
                if !self.git_fails {
                    self.git_notes.insert(commit_sha.to_string(), content.to_string());
                }
                NotesReply::Added(self.git(()))
            }
            NotesRequest::GitAddBatch { entries } => {
                self.asked.push("git add batch".to_string());
                for (sha, content) in entries {
                    self.git_notes.insert(sha.clone(), content.clone());
                }
                NotesReply::Added(self.git(()))
            }
            NotesRequest::GitShow { commit_sha } => {
                self.asked.push("git show".to_string());
                NotesReply::Shown(self.git_notes.get(commit_sha).cloned())
            }
            NotesRequest::GitAuthorship { commit_sha } => {
                self.asked.push("git authorship".to_string());
                NotesReply::Authorship(self.log_of(commit_sha))
            }
            NotesRequest::GitAuthorshipV3 { commit_sha } => {
                self.asked.push("git authorship v3".to_string());
                NotesReply::AuthorshipV3(self.log_of(commit_sha).ok_or("no log".to_string()))
            }
            NotesRequest::GitBlobOids { commit_shas } => {
                self.asked.push("git blob oids".to_string());
                let mut oids = TextMap::new();
                for sha in commit_shas {
                    if self.git_notes.contains_key(sha) {
                        oids.insert(sha.clone(), format!("blob-{}", sha));
                    }
                }
                NotesReply::BlobOids(self.git(oids))
            }
            NotesRequest::GitWithNotes { commit_shas } => {
                self.asked.push(format!("git with notes {:?}", commit_shas));
                let mut found = TextSet::new();
                for sha in commit_shas {
                    if self.git_notes.contains_key(sha) {
                        found.insert(sha.clone());
                    }
                }
                NotesReply::WithNotes(self.git(found))
            }
            NotesRequest::GitFromList { commit_shas } => {
                self.asked.push("git from list".to_string());
                let mut entries = Vec::new();
                for sha in commit_shas {
                    let sha = sha.clone();
                    let git_author = format!("author of {}", sha);
                    entries.push(match self.log_of(&sha) {
                        Some(authorship_log) => {
                            CommitAuthorship::Log { sha, git_author, authorship_log }
                        }
                        None => CommitAuthorship::NoLog { sha, git_author },
                    });
                }
                NotesReply::FromList(self.git(entries))
            }
            NotesRequest::GitGrep { pattern } => {
                self.asked.push("git grep".to_string());
                let mut found = Vec::new();
                for (sha, note) in &self.git_notes {
                    if note.contains(pattern) {
                        found.push(sha.clone());
                    }
                }
                NotesReply::Grepped(self.git(found))
            }
            NotesRequest::GitExec { args } => {
                self.asked.push(format!("git {}", args.join(" ")));
                NotesReply::Output(self.git(self.rev_list.clone()))
            }
            NotesRequest::GitExecStdin { args, stdin } => {
                self.asked.push(format!("git {}", args.join(" ")));
                if self.git_fails {
                    return NotesReply::Imported(self.git(()));
                }
                self.streams.push(stdin.to_string());
                let forced = args.contains(&"--force".to_string());
                NotesReply::Imported(self.fast_import(stdin, forced))
            }
            NotesRequest::Deserialize { content } => {
                self.asked.push("deserialize".to_string());
                NotesReply::Deserialized(parse_log(content))
            }
        }
    }

    /// Does what `git fast-import` does with the commands of the stream. Each
    /// branch begins with nothing; unless forced, a ref is not moved to a commit
    /// whose history lacks the one it points to.
    fn fast_import(&mut self, stream: &str, forced: bool) -> Result<(), String> {
        let mut branches: BTreeMap<String, Vec<BTreeMap<String, String>>> = BTreeMap::new();
        let bytes = stream.as_bytes();
        let mut at = 0;
        let mut marks: BTreeMap<String, String> = BTreeMap::new();
        while at < bytes.len() {
            let line = next_line(bytes, &mut at);
            if line == "blob" {
                let mark = next_line(bytes, &mut at);
                let mark = mark.strip_prefix("mark ").unwrap().to_string();
                let count = next_line(bytes, &mut at);
                let count: usize = count.strip_prefix("data ").unwrap().parse().unwrap();
                let data = String::from_utf8(bytes[at..at + count].to_vec()).unwrap();
                at += count;
                assert_eq!(next_line(bytes, &mut at), "");
                marks.insert(mark, data);
            } else if let Some(name) = line.strip_prefix("reset ") {
                branches.insert(name.to_string(), Vec::new());
            } else if let Some(name) = line.strip_prefix("commit ") {
                let committer = next_line(bytes, &mut at);
                assert_eq!(committer, "committer git-ai <git-ai@localhost> 1000000000 +0000");
                assert_eq!(next_line(bytes, &mut at), "data 0");
                let history = branches.entry(name.to_string()).or_default();
                let mut tree = history.last().cloned().unwrap_or_default();
                loop {
                    let change = next_line(bytes, &mut at);
                    if let Some(path) = change.strip_prefix("D ") {
                        tree.remove(path);
                    } else if let Some(rest) = change.strip_prefix("M 100644 ") {
                        let (mark, path) = rest.split_once(' ').unwrap();
                        tree.insert(path.to_string(), marks[mark].clone());
                    } else {
                        assert_eq!(change, "");
                        break;
                    }
                }
                history.push(tree);
            } else {
                panic!("unknown command {:?}", line);
            }
        }
        let mut result = Ok(());
        for (name, history) in branches {
            match self.refs.get(&name) {
                Some(old) if !forced && !history.is_empty() && !history.starts_with(old) => {
                    result = Err(format!("not updating {}", name));
                }
                _ => {
                    if !history.is_empty() {
                        self.refs.insert(name, history);
                    }
                }
            }
        }
        result
    }

    /// The notes under the display ref.
    fn displayed(&self) -> &BTreeMap<String, String> {
        self.refs["refs/notes/ai-display"].last().unwrap()
    }
}

fn next_line(bytes: &[u8], at: &mut usize) -> String {
    let start = *at;
    while bytes[*at] != b'\n' {
        *at += 1;
    }
    *at += 1;
    String::from_utf8(bytes[start..*at - 1].to_vec()).unwrap()
}

/// Notes that begin with `log:` hold an authorship log.
fn parse_log(content: &str) -> Result<String, String> {
    match content.strip_prefix("log:") {
        Some(log) => Ok(log.to_string()),
        None => Err(format!("no log in {:?}", content)),
    }
}

fn drive<S, R>(first: Step<S, R>, mut turn: impl FnMut(S) -> Step<S, R>) -> R {
    let mut step = first;
    loop {
        match step {
            Step::Ask(state) => step = turn(state),
            Step::Done(result) => return result,
        }
    }
}

fn put(host: &mut Host, kind: NotesBackendKind, sha: &str, content: &str) -> Result<(), GitAiError<String>> {
    drive(write_note(kind, sha, content), |s| {
        let reply = host.perform(s.request());
        s.resume(reply)
    })
}

fn put_batch(
    host: &mut Host,
    kind: NotesBackendKind,
    entries: &[(String, String)],
) -> Result<(), GitAiError<String>> {
    drive(write_notes_batch(kind, entries), |s| {
        let reply = host.perform(s.request());
        s.resume(reply)
    })
}

fn get(host: &mut Host, kind: NotesBackendKind, sha: &str) -> Option<String> {
    drive(read_note(kind, sha), |s| {
        let reply = host.perform(s.request());
        s.resume(reply)
    })
}

fn authorship(host: &mut Host, kind: NotesBackendKind, sha: &str) -> Option<String> {
    drive(read_authorship(kind, sha), |s| {
        let reply = host.perform(s.request());
        s.resume(reply)
    })
}

fn authorship_v3(host: &mut Host, kind: NotesBackendKind, sha: &str) -> Result<String, GitAiError<String>> {
    drive(read_authorship_v3(kind, sha), |s| {
        let reply = host.perform(s.request());
        s.resume(reply)
    })
}

fn with_notes(
    host: &mut Host,
    kind: NotesBackendKind,
    shas: &[String],
) -> Result<Vec<String>, GitAiError<String>> {
    drive(commits_with_notes(kind, shas), |s| {
        let reply = host.perform(s.request());
        s.resume(reply)
    })
    .map(|set| {
        let mut items = set.items().clone();
        items.sort();
        items
    })
}

fn filtered(
    host: &mut Host,
    kind: NotesBackendKind,
    shas: &[String],
) -> Result<Vec<CommitAuthorship<String>>, GitAiError<String>> {
    drive(filter_commits_with_notes(kind, shas), |s| {
        let reply = host.perform(s.request());
        s.resume(reply)
    })
}

fn oids(
    host: &mut Host,
    kind: NotesBackendKind,
    shas: &[String],
) -> Result<TextMap<String>, GitAiError<String>> {
    drive(read_note_blob_oids(kind, shas), |s| {
        let reply = host.perform(s.request());
        s.resume(reply)
    })
}

fn materialize(host: &mut Host, global_args: &[String], limit: usize) -> Result<usize, GitAiError<String>> {
    drive(materialize_notes_for_display(global_args, limit), |s| {
        let reply = host.perform(s.request());
        s.resume(reply)
    })
}

fn strings(items: &[&str]) -> Vec<String> {
    items.iter().map(|s| s.to_string()).collect()
}

fn generic<T>(result: Result<T, GitAiError<String>>) -> String {
    match result {
        Err(GitAiError::Generic(message)) => message,
        _ => panic!("expected a generic error"),
    }
}

fn host_error<T>(result: Result<T, GitAiError<String>>) -> String {
    match result {
        Err(GitAiError::Host(message)) => message,
        _ => panic!("expected an error of the host"),
    }
}

const HTTP: NotesBackendKind = NotesBackendKind::Http;
const GIT: NotesBackendKind = NotesBackendKind::GitNotes;

/// The http helpers put a note into the database, where it is pending, and read
/// it back from there.
#[test]
fn http_write_then_read_uses_cache() {
    let mut host = Host::new();
    let sha = "abc123def456abc123def456abc123def456abc1";

    drive(http_write_note::<String>(sha, "test content"), |s| {
        let reply = host.perform(s.request());
        s.resume(reply)
    })
    .expect("write");

    let content = http_read_note(host.get_note(sha));
    assert_eq!(content, Some("test content".to_string()));
    assert!(
        host.pending.iter().any(|p| p == sha && host.db[p] == "test content"),
        "expected pending row in notes-db"
    );
}

/// All cached notes of the commits asked for come back, and no others.
#[test]
fn http_read_notes_returns_multiple() {
    let mut host = Host::new();
    let sha1 = "aaaaaaaaaaaaaaaaaaaaaaaaaaaaaaaaaaaaaaaa".to_string();
    let sha2 = "bbbbbbbbbbbbbbbbbbbbbbbbbbbbbbbbbbbbbbbb".to_string();
    let sha3 = "cccccccccccccccccccccccccccccccccccccccc".to_string();

    drive(http_write_note::<String>(&sha1, "content-a"), |s| {
        let reply = host.perform(s.request());
        s.resume(reply)
    })
    .expect("write sha1");
    drive(http_write_note::<String>(&sha2, "content-b"), |s| {
        let reply = host.perform(s.request());
        s.resume(reply)
    })
    .expect("write sha2");

    let result = http_read_notes(host.get_notes(&[sha1.clone(), sha2.clone(), sha3.clone()]));
    assert_eq!(result.get(&sha1), Some(&"content-a".to_string()));
    assert_eq!(result.get(&sha2), Some(&"content-b".to_string()));
    assert!(result.get(&sha3).is_none());
}

/// With git notes, blob identifiers are asked of git; without commits the
/// answer is empty.
#[test]
fn git_notes_backend_read_note_blob_oids_delegates_to_git() {
    let mut host = Host::new();
    let result = oids(&mut host, GIT, &[]);
    assert!(result.is_ok());
    assert_eq!(host.asked, vec!["git blob oids"]);
    assert_eq!(result.unwrap().len(), 0);
}

#[test]
fn http_backend_read_note_blob_oids_returns_empty_map() {
    let mut host = Host::new();
    host.git_notes.insert("abc".to_string(), "note".to_string());
    let result = oids(&mut host, HTTP, &["abc".to_string()]);
    assert!(result.is_ok());
    assert!(
        result.unwrap().len() == 0,
        "Http backend should return empty map from read_note_blob_oids"
    );
    assert!(host.asked.is_empty());
}

/// A note written over the http backend is in the database, pending, and not in
/// git.
#[test]
fn integration_http_write_note_goes_to_db_not_git() {
    let mut host = Host::new();
    let sha = "4b825dc642cb6eb9a060e54bf8d69288fbee4904";
    put(&mut host, HTTP, sha, "some-note-content").expect("http write");

    assert_eq!(host.db.get(sha), Some(&"some-note-content".to_string()));
    assert!(host.pending.iter().any(|p| p == sha), "note should be pending in notes-db");
    assert!(host.git_notes.get(sha).is_none());
    assert_eq!(host.asked, vec!["db upsert", "submit"]);
    assert_eq!(host.submitted, 1);
}

/// Notes of the database come to stand under the display ref.
#[test]
fn integration_materialize_notes_for_display() {
    let mut host = Host::new();
    let sha = "4b825dc642cb6eb9a060e54bf8d69288fbee4904";
    host.rev_list = format!("{}\n", sha).into_bytes();
    drive(http_write_note::<String>(sha, "display-note-content"), |s| {
        let reply = host.perform(s.request());
        s.resume(reply)
    })
    .expect("write note");

    let count = materialize(&mut host, &[], 50).expect("materialize");
    assert_eq!(count, 1, "should have materialized 1 note");

    let shown = &host.displayed()[sha];
    assert!(
        shown.trim() == "display-note-content",
        "refs/notes/ai-display should contain the materialized note, got: {:?}",
        shown
    );
}

#[test]
fn git_write_goes_to_git_not_db() {
    let mut host = Host::new();
    put(&mut host, GIT, "a1", "note").unwrap();
    assert_eq!(host.git_notes["a1"], "note");
    assert!(host.db.is_empty());
    assert_eq!(host.asked, vec!["git add"]);
    assert_eq!(get(&mut host, GIT, "a1"), Some("note".to_string()));
    assert_eq!(host.asked, vec!["git add", "git show"]);
}

#[test]
fn empty_batch_does_nothing() {
    for kind in [HTTP, GIT] {
        let mut host = Host::new();
        host.fault = Fault::NotOpened;
        host.git_fails = true;
        assert!(put_batch(&mut host, kind, &[]).is_ok());
        assert!(host.asked.is_empty());
    }
}

#[test]
fn batch_goes_to_the_backend() {
    let entries = vec![
        ("a1".to_string(), "one".to_string()),
        ("a2".to_string(), "two".to_string()),
    ];
    let mut host = Host::new();
    put_batch(&mut host, HTTP, &entries).unwrap();
    assert_eq!(host.asked, vec!["db upsert batch", "submit"]);
    assert_eq!(host.db["a2"], "two");
    assert_eq!(get(&mut host, HTTP, "a2"), Some("two".to_string()));
    assert_eq!(get(&mut host, HTTP, "a3"), None);

    let mut host = Host::new();
    put_batch(&mut host, GIT, &entries).unwrap();
    assert_eq!(host.asked, vec!["git add batch"]);
    assert_eq!(host.git_notes["a1"], "one");
    assert!(matches!(http_write_batch::<String>(&entries), Step::Ask(_)));
}

/// A write that fails is not followed by sending.
#[test]
fn failed_writes_are_reported_and_not_sent() {
    let mut host = Host::new();
    host.fault = Fault::NotOpened;
    assert_eq!(host_error(put(&mut host, HTTP, "a1", "n")), "cannot open");
    host.fault = Fault::NotLocked;
    assert_eq!(generic(put(&mut host, HTTP, "a1", "n")), "notes-db lock: poisoned");
    host.fault = Fault::Failed;
    assert_eq!(host_error(put(&mut host, HTTP, "a1", "n")), "disk full");
    assert_eq!(host.submitted, 0);
    host.git_fails = true;
    assert_eq!(host_error(put(&mut host, GIT, "a1", "n")), "git failed");
    assert_eq!(
        host_error(put_batch(&mut host, GIT, &[("a1".to_string(), "n".to_string())])),
        "git failed"
    );
}

#[test]
fn read_falls_back_to_git_on_a_miss() {
    let mut host = Host::new();
    host.git_notes.insert("a1".to_string(), "from git".to_string());
    assert_eq!(get(&mut host, HTTP, "a1"), Some("from git".to_string()));
    assert_eq!(host.asked, vec!["db get", "git show"]);
    assert_eq!(get(&mut host, HTTP, "a2"), None);

    host.db.insert("a1".to_string(), "from db".to_string());
    host.asked.clear();
    assert_eq!(get(&mut host, HTTP, "a1"), Some("from db".to_string()));
    assert_eq!(host.asked, vec!["db get"]);

    for fault in [Fault::NotOpened, Fault::NotLocked, Fault::Failed] {
        host.fault = fault;
        assert_eq!(get(&mut host, HTTP, "a1"), Some("from git".to_string()));
    }
}

#[test]
fn authorship_is_read_from_the_database_first() {
    let mut host = Host::new();
    host.git_notes.insert("a1".to_string(), "log:git".to_string());
    assert_eq!(authorship(&mut host, HTTP, "a1"), Some("git".to_string()));
    assert_eq!(authorship(&mut host, GIT, "a1"), Some("git".to_string()));
    assert_eq!(authorship_v3(&mut host, HTTP, "a1").unwrap(), "git");
    assert_eq!(authorship_v3(&mut host, GIT, "a1").unwrap(), "git");

    host.db.insert("a1".to_string(), "log:db".to_string());
    assert_eq!(authorship(&mut host, HTTP, "a1"), Some("db".to_string()));
    assert_eq!(authorship_v3(&mut host, HTTP, "a1").unwrap(), "db");
    assert_eq!(authorship(&mut host, GIT, "a1"), Some("git".to_string()));
}

/// A note in the database decides, even where no log can be read from it.
#[test]
fn unreadable_note_is_not_replaced_by_git() {
    let mut host = Host::new();
    host.git_notes.insert("a1".to_string(), "log:git".to_string());
    host.db.insert("a1".to_string(), "garbage".to_string());
    assert_eq!(authorship(&mut host, HTTP, "a1"), None);
    assert_eq!(
        generic(authorship_v3(&mut host, HTTP, "a1")),
        "notes deserialization error: no log in \"garbage\""
    );
    assert_eq!(host_error(authorship_v3(&mut host, GIT, "a2")), "no log");
    assert_eq!(authorship(&mut host, GIT, "a2"), None);
}

#[test]
fn blob_oids_come_from_git() {
    let mut host = Host::new();
    host.git_notes.insert("a1".to_string(), "note".to_string());
    let found = oids(&mut host, GIT, &strings(&["a1", "a2"])).unwrap();
    assert_eq!(found.len(), 1);
    assert_eq!(found.get(&"a1".to_string()), Some(&"blob-a1".to_string()));
    host.git_fails = true;
    assert_eq!(host_error(oids(&mut host, GIT, &[])), "git failed");
}

#[test]
fn commits_with_notes_joins_database_and_git() {
    let mut host = Host::new();
    host.db.insert("a1".to_string(), "n".to_string());
    host.git_notes.insert("a3".to_string(), "n".to_string());
    let shas = strings(&["a1", "a2", "a3", "a2"]);
    assert_eq!(with_notes(&mut host, HTTP, &shas).unwrap(), strings(&["a1", "a3"]));
    assert_eq!(host.asked, vec!["db get many", "git with notes [\"a2\", \"a3\", \"a2\"]"]);
    assert_eq!(with_notes(&mut host, GIT, &shas).unwrap(), strings(&["a3"]));
}

#[test]
fn commits_with_notes_asks_no_git_when_all_are_cached() {
    let mut host = Host::new();
    host.git_fails = true;
    host.db.insert("a1".to_string(), "n".to_string());
    host.db.insert("a2".to_string(), "n".to_string());
    assert_eq!(
        with_notes(&mut host, HTTP, &strings(&["a1", "a2"])).unwrap(),
        strings(&["a1", "a2"])
    );
    assert_eq!(host.asked, vec!["db get many"]);
    assert_eq!(with_notes(&mut host, HTTP, &[]).unwrap(), Vec::<String>::new());

    // A commit that is named twice is in the cache once, so git is asked.
    host.asked.clear();
    assert_eq!(host_error(with_notes(&mut host, HTTP, &strings(&["a1", "a1"]))), "git failed");
    assert_eq!(host.asked, vec!["db get many", "git with notes []"]);
    assert_eq!(host_error(with_notes(&mut host, GIT, &strings(&["a1"]))), "git failed");
}

#[test]
fn check_exists_gives_the_keys() {
    let mut host = Host::new();
    host.db.insert("a1".to_string(), "n".to_string());
    let shas = strings(&["a1", "a2"]);
    let set = http_check_exists(host.get_notes(&shas));
    assert_eq!(set.len(), 1);
    assert!(set.contains(&shas[0]));
    assert!(!set.contains(&shas[1]));
    host.fault = Fault::NotLocked;
    assert_eq!(http_check_exists(host.get_notes(&shas)).len(), 0);
    assert_eq!(http_read_notes(host.get_notes(&shas)).len(), 0);
}

fn shown(entries: &[CommitAuthorship<String>]) -> Vec<(String, String, Option<String>)> {
    entries
        .iter()
        .map(|entry| match entry {
            CommitAuthorship::NoLog { sha, git_author } => (sha.clone(), git_author.clone(), None),
            CommitAuthorship::Log { sha, git_author, authorship_log } => {
                (sha.clone(), git_author.clone(), Some(authorship_log.clone()))
            }
        })
        .collect()
}

fn entry(sha: &str, log: Option<&str>) -> (String, String, Option<String>) {
    (sha.to_string(), format!("author of {}", sha), log.map(|l| l.to_string()))
}

#[test]
fn filter_promotes_cached_logs() {
    let mut host = Host::new();
    host.db.insert("a1".to_string(), "log:one".to_string());
    host.db.insert("a2".to_string(), "garbage".to_string());
    host.db.insert("a4".to_string(), "log:cached".to_string());
    host.db.insert("a5".to_string(), "log:five".to_string());
    host.git_notes.insert("a4".to_string(), "log:git".to_string());
    let shas = strings(&["a1", "a2", "a3", "a4", "a5"]);
    let entries = filtered(&mut host, HTTP, &shas).unwrap();
    assert_eq!(
        shown(&entries),
        vec![
            entry("a1", Some("one")),
            entry("a2", None),
            entry("a3", None),
            entry("a4", Some("git")),
            entry("a5", Some("five")),
        ]
    );
    assert_eq!(
        host.asked,
        vec!["db get many", "git from list", "deserialize", "deserialize", "deserialize"]
    );

    let entries = filtered(&mut host, GIT, &shas).unwrap();
    assert_eq!(shown(&entries)[0], entry("a1", None));
    assert_eq!(shown(&entries)[3], entry("a4", Some("git")));

    host.git_fails = true;
    assert_eq!(host_error(filtered(&mut host, HTTP, &shas)), "git failed");
    assert_eq!(host_error(filtered(&mut host, GIT, &shas)), "git failed");
}

#[test]
fn filter_without_a_database_gives_what_git_has() {
    let mut host = Host::new();
    host.fault = Fault::Failed;
    host.db.insert("a1".to_string(), "log:one".to_string());
    let entries = filtered(&mut host, HTTP, &strings(&["a1"])).unwrap();
    assert_eq!(shown(&entries), vec![entry("a1", None)]);
}

#[test]
fn search_asks_git() {
    let mut host = Host::new();
    host.git_notes.insert("a1".to_string(), "needle".to_string());
    let found = drive(search_notes::<String>("need"), |s| {
        let reply = host.perform(s.request());
        s.resume(reply)
    });
    assert_eq!(found.unwrap(), strings(&["a1"]));
    host.git_fails = true;
    let failed = drive(search_notes::<String>("need"), |s| {
        let reply = host.perform(s.request());
        s.resume(reply)
    });
    assert_eq!(host_error(failed), "git failed");
}

#[test]
fn materialization_writes_an_exact_stream() {
    let mut host = Host::new();
    host.rev_list = b"  aa11 \r\n\n\t\nbb22\ncc33".to_vec();
    host.db.insert("aa11".to_string(), "h\u{e9}llo\nblob\n".to_string());
    host.db.insert("cc33".to_string(), "".to_string());
    let global_args = strings(&["-C", "/repo"]);
    assert_eq!(materialize(&mut host, &global_args, 120).unwrap(), 2);
    assert_eq!(
        host.asked,
        vec![
            "git -C /repo rev-list --max-count=120 HEAD",
            "db get many",
            "git -C /repo fast-import --quiet --force",
        ]
    );
    assert_eq!(
        host.streams,
        vec![concat_lines(&[
            "blob",
            "mark :1",
            "data 12",
            "h\u{e9}llo",
            "blob",
            "",
            "blob",
            "mark :2",
            "data 0",
            "",
            "reset refs/notes/ai-display",
            "commit refs/notes/ai-display",
            "committer git-ai <git-ai@localhost> 1000000000 +0000",
            "data 0",
            "D aa11",
            "M 100644 :1 aa11",
            "D cc33",
            "M 100644 :2 cc33",
            "",
        ])]
    );
    let tree = host.displayed();
    assert_eq!(tree["aa11"], "h\u{e9}llo\nblob\n");
    assert_eq!(tree["cc33"], "");
    assert_eq!(tree.len(), 2);
}

fn concat_lines(lines: &[&str]) -> String {
    let mut text = String::new();
    for line in lines {
        text.push_str(line);
        text.push('\n');
    }
    text
}

/// Each materialization replaces what the one before it left.
#[test]
fn materialization_overwrites_the_previous_state() {
    let mut host = Host::new();
    host.rev_list = b"a1\na2\n".to_vec();
    host.db.insert("a1".to_string(), "old".to_string());
    host.db.insert("a2".to_string(), "gone".to_string());
    assert_eq!(materialize(&mut host, &[], 2).unwrap(), 2);
    host.db.insert("a1".to_string(), "new".to_string());
    host.db.remove("a2");
    assert_eq!(materialize(&mut host, &[], 2).unwrap(), 1);
    let tree = host.displayed();
    assert_eq!(tree.len(), 1);
    assert_eq!(tree["a1"], "new");
}

/// Without force, git does not put other notes in the place of those that are
/// displayed.
#[test]
fn unforced_import_of_other_notes_is_refused() {
    let mut host = Host::new();
    host.rev_list = b"a1\n".to_vec();
    host.db.insert("a1".to_string(), "old".to_string());
    assert_eq!(materialize(&mut host, &[], 1).unwrap(), 1);
    let same = host.streams[0].clone();
    assert!(host.fast_import(&same, false).is_ok());
    let other = same.replace("old", "new");
    assert!(host.fast_import(&other, false).is_err());
    assert_eq!(host.displayed()["a1"], "old");
    assert!(host.fast_import(&other, true).is_ok());
    assert_eq!(host.displayed()["a1"], "new");
}

/// A second materialization, with nothing changed, gives the same.
#[test]
fn materializing_again_changes_nothing() {
    let mut host = Host::new();
    host.rev_list = b"a1\na2\na3\n".to_vec();
    host.db.insert("a1".to_string(), "one".to_string());
    host.db.insert("a3".to_string(), "three".to_string());
    assert_eq!(materialize(&mut host, &[], 3).unwrap(), 2);
    let refs = host.refs.clone();
    assert_eq!(materialize(&mut host, &[], 3).unwrap(), 2);
    assert_eq!(host.refs, refs);
}

/// With nothing to display, nothing of what was displayed stays.
#[test]
fn materialization_without_commits_or_notes_clears_the_display() {
    let mut host = Host::new();
    host.rev_list = b"a1\n".to_vec();
    host.db.insert("a1".to_string(), "n".to_string());
    assert_eq!(materialize(&mut host, &[], 5).unwrap(), 1);
    assert_eq!(host.displayed().len(), 1);

    host.db.clear();
    assert_eq!(materialize(&mut host, &[], 5).unwrap(), 0);
    assert!(host.displayed().is_empty());
    assert_eq!(
        host.streams[1],
        concat_lines(&[
            "reset refs/notes/ai-display",
            "commit refs/notes/ai-display",
            "committer git-ai <git-ai@localhost> 1000000000 +0000",
            "data 0",
            "",
        ])
    );

    host.db.insert("a1".to_string(), "n".to_string());
    assert_eq!(materialize(&mut host, &[], 5).unwrap(), 1);
    host.rev_list = b" \n\n".to_vec();
    host.asked.clear();
    assert_eq!(materialize(&mut host, &[], 5).unwrap(), 0);
    assert!(host.displayed().is_empty());
    assert_eq!(
        host.asked,
        vec!["git rev-list --max-count=5 HEAD", "git fast-import --quiet --force"]
    );
}

/// With a database that cannot be used, the display stays as it is.
#[test]
fn materialization_without_a_database_writes_nothing() {
    let mut host = Host::new();
    host.rev_list = b"a1\n".to_vec();
    host.db.insert("a1".to_string(), "n".to_string());
    assert_eq!(materialize(&mut host, &[], 5).unwrap(), 1);
    for fault in [Fault::NotOpened, Fault::NotLocked, Fault::Failed] {
        host.fault = fault;
        assert_eq!(materialize(&mut host, &[], 5).unwrap(), 0);
    }
    assert_eq!(host.streams.len(), 1);
    assert_eq!(host.displayed()["a1"], "n");

    host.fault = Fault::Absent;
    host.git_fails = true;
    assert_eq!(host_error(materialize(&mut host, &[], 5)), "git failed");
}

#[test]
fn materialization_reports_a_failed_import() {
    let args: Vec<String> = Vec::new();
    let mut notes = TextMap::new();
    notes.insert("a1".to_string(), "n".to_string());
    let step: MaterializationStep<'_, String> = materialize_notes_for_display(&args, 1);
    let state = match step {
        Step::Ask(state) => state,
        Step::Done(_) => panic!("nothing was asked"),
    };
    let state = match state.resume::<String, String>(NotesReply::Output(Ok(b"a1\n".to_vec()))) {
        Step::Ask(state) => state,
        Step::Done(_) => panic!("the database was not asked"),
    };
    let state = match state.resume::<String, String>(NotesReply::Notes(DbAccess::Success(notes))) {
        Step::Ask(state) => state,
        Step::Done(_) => panic!("nothing was imported"),
    };
    match state.resume::<String, String>(NotesReply::Imported(Err("refused".to_string()))) {
        Step::Done(result) => assert_eq!(host_error(result), "refused"),
        Step::Ask(_) => panic!("still asking"),
    }
}

/// Bytes that are no UTF-8 are replaced, not dropped.
#[test]
fn commit_list_is_read_as_lossy_text() {
    let mut host = Host::new();
    host.rev_list = vec![b'a', 0xff, b'\n'];
    host.db.insert("a\u{fffd}".to_string(), "n".to_string());
    assert_eq!(materialize(&mut host, &[], 1).unwrap(), 1);
}

/// An answer that does not fit what was asked changes nothing.
#[test]
fn unfitting_answers_change_nothing() {
    let shas = strings(&["a1"]);
    let step: FilterReadStep<'_, String, String> = filter_commits_with_notes(HTTP, &shas);
    let state = match step {
        Step::Ask(state) => state,
        Step::Done(_) => panic!("nothing was asked"),
    };
    match state.resume::<String>(NotesReply::Submitted) {
        Step::Ask(state) => assert!(matches!(state.request(), NotesRequest::DbGetMany { .. })),
        Step::Done(_) => panic!("an answer was made up"),
    }
    match write_note::<String>(HTTP, "a1", "n") {
        Step::Ask(state) => match state.resume::<String, String>(NotesReply::Added(Ok(()))) {
            Step::Ask(state) => assert!(matches!(state.request(), NotesRequest::DbUpsert { .. })),
            Step::Done(_) => panic!("an answer was made up"),
        },
        Step::Done(_) => panic!("nothing was asked"),
    }
}
