//! Sweeps over agents, files and a database in memory.
use git_ai::step::Step;
use git_ai::sweep_coordinator::{
    canonicalize_path, get_modified_timestamp, is_file_stale, DiscoveredSession, FileMetadata,
    ModifiedTime, SessionId, SessionRecord, SessionToProcess, StreamDescriptor, StreamFile,
    SweepCoordinator, SweepReply, SweepRequest, SweepStrategy,
};
use git_ai::transcript::{TranscriptError, Wait};
use std::collections::BTreeMap;
use std::path::PathBuf;

/// An agent: whether it is swept, its sessions (or none where looking for them
/// fails) and its streams, each with a suffix that makes its file name.
struct Agent {
    periodic: bool,
    sessions: Option<Vec<&'static str>>,
    streams: Vec<(&'static str, bool, &'static str)>,
}

/// What the sweep can ask.
struct World {
    agents: Vec<Agent>,
    files: BTreeMap<String, (u64, Option<u64>)>,
    unreadable: Vec<String>,
    records: BTreeMap<String, SessionRecord>,
    broken_db: bool,
    asked: Vec<String>,
}

impl World {
    fn new(agents: Vec<Agent>) -> World {
        World {
            agents,
            files: BTreeMap::new(),
            unreadable: Vec::new(),
            records: BTreeMap::new(),
            broken_db: false,
            asked: Vec::new(),
        }
    }

    fn perform(&mut self, request: SweepRequest<'_>) -> SweepReply {
        match request {
            SweepRequest::Strategy { agent } => SweepReply::Strategy(if self.agents[agent].periodic {
                SweepStrategy::Periodic { interval_secs: 60 }
            } else {
                SweepStrategy::Unswept
            }),
            SweepRequest::Discover { agent } => {
                self.asked.push(format!("discover {}", agent));
                SweepReply::Discovered(self.agents[agent].sessions.as_ref().map(|sessions| {
                    sessions.iter().map(|id| session(id)).collect()
                }))
            }
            SweepRequest::Streams { agent } => {
                self.asked.push(format!("streams {}", agent));
                SweepReply::Streams(
                    self.agents[agent]
                        .streams
                        .iter()
                        .map(|(kind, shared, _)| StreamDescriptor {
                            stream_kind: kind.to_string(),
                            shared: *shared,
                        })
                        .collect(),
                )
            }
            SweepRequest::Canonicalize { path } => {
                self.asked.push(format!("canonicalize {}", path.display()));
                if path.starts_with("/link") {
                    let name = path.file_name().unwrap();
                    SweepReply::Canonical(Some(PathBuf::from("/real").join(name)))
                } else {
                    SweepReply::Canonical(None)
                }
            }
            SweepRequest::Resolve { agent, stream, canonical } => {
                let suffix = self.agents[agent].streams[stream].2;
                SweepReply::Resolved(if suffix.is_empty() {
                    None
                } else {
                    let display = format!("{}{}", canonical.display(), suffix);
                    Some(StreamFile { path: PathBuf::from(&display), display })
                })
            }
            SweepRequest::Exists { path } => {
                let name = path.display().to_string();
                SweepReply::Exists(self.files.contains_key(&name))
            }
            SweepRequest::LookUp { session_id, stream_kind, path } => {
                let id = match session_id {
                    SessionId::Given(id) => id.clone(),
                    SessionId::Derived { path, tool } => format!("derived({},{})", path, tool),
                };
                let key = format!("{}|{}|{}", id, stream_kind, path);
                self.asked.push(format!("look up {}", key));
                if self.broken_db {
                    SweepReply::Record(Err(TranscriptError::Fatal {
                        message: "no database".to_string(),
                    }))
                } else {
                    SweepReply::Record(Ok(self.records.get(&key).copied()))
                }
            }
            SweepRequest::Stat { path } => {
                let name = path.display().to_string();
                self.asked.push(format!("stat {}", name));
                if self.unreadable.contains(&name) {
                    SweepReply::Metadata(Err("permission denied".to_string()))
                } else {
                    let (len, secs) = self.files[&name];
                    SweepReply::Metadata(Ok(metadata(len, secs)))
                }
            }
        }
    }

    fn sweep(&mut self) -> Result<Vec<SessionToProcess>, TranscriptError> {
        let names = (0..self.agents.len()).map(|i| format!("agent{}", i)).collect();
        let coordinator = SweepCoordinator::new(names);
        let mut step = coordinator.run_sweep();
        loop {
            match step {
                Step::Ask(run) => {
                    let reply = self.perform(run.request());
                    step = run.resume(reply);
                }
                Step::Done(result) => return result,
            }
        }
    }

    fn swept(&mut self) -> Vec<String> {
        self.sweep().unwrap().iter().map(|s| s.session_id.clone()).collect()
    }
}

fn metadata(len: u64, secs: Option<u64>) -> FileMetadata {
    let modified = match secs {
        Some(secs) => ModifiedTime::SinceEpoch { secs },
        None => ModifiedTime::Unknown,
    };
    FileMetadata { len, modified }
}

fn session(id: &str) -> DiscoveredSession {
    DiscoveredSession {
        session_id: id.to_string(),
        tool: "tool".to_string(),
        transcript_path: PathBuf::from(format!("/link/{}", id)),
        external_session_id: format!("ext-{}", id),
        external_parent_session_id: if id == "s1" { Some("parent".to_string()) } else { None },
    }
}

fn one_agent(sessions: Vec<&'static str>) -> Agent {
    Agent {
        periodic: true,
        sessions: Some(sessions),
        streams: vec![("transcript", false, ".jsonl"), ("otel", true, ".db")],
    }
}

fn record(size: i64, modified: Option<i64>) -> SessionRecord {
    SessionRecord { last_known_size: size, last_modified: modified }
}

#[test]
fn no_agents_no_sessions() {
    let mut world = World::new(Vec::new());
    assert!(world.sweep().unwrap().is_empty());
    assert!(world.asked.is_empty());
}

#[test]
fn new_session_is_handed_on_whole() {
    let mut world = World::new(vec![one_agent(vec!["s1", "s2"])]);
    world.files.insert("/real/s1.jsonl".to_string(), (10, Some(5)));
    let found = world.sweep().unwrap();
    assert_eq!(found.len(), 1);
    assert_eq!(found[0].session_id, "s1");
    assert_eq!(found[0].tool, "tool");
    assert_eq!(found[0].canonical_path, PathBuf::from("/real/s1"));
    assert_eq!(found[0].external_session_id, "ext-s1");
    assert_eq!(found[0].external_parent_session_id, Some("parent".to_string()));
    let copy = found[0].clone();
    assert_eq!(copy.canonical_path, found[0].canonical_path);
}

#[test]
fn unchanged_session_is_passed_over() {
    let mut world = World::new(vec![one_agent(vec!["s1"])]);
    world.files.insert("/real/s1.jsonl".to_string(), (10, Some(5)));
    let key = "s1|transcript|/real/s1.jsonl".to_string();
    world.records.insert(key.clone(), record(10, Some(5)));
    assert!(world.swept().is_empty());
    world.records.insert(key.clone(), record(11, Some(5)));
    assert_eq!(world.swept(), vec!["s1"]);
    world.records.insert(key.clone(), record(10, Some(4)));
    assert_eq!(world.swept(), vec!["s1"]);
    world.records.insert(key, record(10, None));
    assert_eq!(world.swept(), vec!["s1"]);
}

/// A shared file is on record under a session of its own.
#[test]
fn shared_stream_has_a_derived_session() {
    let mut world = World::new(vec![one_agent(vec!["s1"])]);
    world.files.insert("/real/s1.db".to_string(), (10, None));
    assert_eq!(world.swept(), vec!["s1"]);
    assert_eq!(
        world.asked,
        vec![
            "discover 0",
            "streams 0",
            "canonicalize /link/s1",
            "look up derived(/real/s1.db,tool)|otel|/real/s1.db",
        ]
    );
    let key = "derived(/real/s1.db,tool)|otel|/real/s1.db".to_string();
    world.records.insert(key, record(10, Some(1)));
    assert!(world.swept().is_empty());
}

/// The first stale stream decides; those after it are not looked at.
#[test]
fn first_stale_stream_decides() {
    let mut world = World::new(vec![one_agent(vec!["s1"])]);
    world.files.insert("/real/s1.jsonl".to_string(), (10, Some(5)));
    world.files.insert("/real/s1.db".to_string(), (10, Some(5)));
    assert_eq!(world.swept(), vec!["s1"]);
    assert_eq!(world.asked.len(), 4);

    world.asked.clear();
    world.records.insert("s1|transcript|/real/s1.jsonl".to_string(), record(10, Some(5)));
    assert_eq!(world.swept(), vec!["s1"]);
    assert_eq!(world.asked.last().unwrap(), "look up derived(/real/s1.db,tool)|otel|/real/s1.db");
}

#[test]
fn agents_are_swept_in_order() {
    let mut world = World::new(vec![
        one_agent(vec!["s3", "s1"]),
        Agent { periodic: false, sessions: Some(vec!["s4"]), streams: Vec::new() },
        Agent { periodic: true, sessions: None, streams: Vec::new() },
        one_agent(vec!["s2"]),
    ]);
    for id in ["s1", "s2", "s3", "s4"] {
        world.files.insert(format!("/real/{}.jsonl", id), (1, None));
    }
    assert_eq!(world.swept(), vec!["s3", "s1", "s2"]);
    assert!(!world.asked.contains(&"discover 1".to_string()));
    assert!(world.asked.contains(&"discover 2".to_string()));
    assert!(!world.asked.contains(&"streams 2".to_string()));
}

#[test]
fn streams_without_a_file_are_passed_over() {
    let mut world = World::new(vec![
        Agent {
            periodic: true,
            sessions: Some(vec!["s1"]),
            streams: vec![("none", false, ""), ("gone", false, ".gone")],
        },
        Agent { periodic: true, sessions: Some(vec!["s2"]), streams: Vec::new() },
        Agent { periodic: true, sessions: Some(Vec::new()), streams: Vec::new() },
    ]);
    assert!(world.swept().is_empty());
    assert_eq!(
        world.asked,
        vec![
            "discover 0",
            "streams 0",
            "canonicalize /link/s1",
            "discover 1",
            "streams 1",
            "canonicalize /link/s2",
            "discover 2",
            "streams 2",
        ]
    );
}

#[test]
fn failures_end_the_sweep() {
    let mut world = World::new(vec![one_agent(vec!["s1", "s2"])]);
    world.files.insert("/real/s1.jsonl".to_string(), (1, None));
    world.files.insert("/real/s2.jsonl".to_string(), (1, None));
    world.records.insert("s2|transcript|/real/s2.jsonl".to_string(), record(1, None));
    world.unreadable.push("/real/s2.jsonl".to_string());
    match world.sweep() {
        Err(TranscriptError::Transient { message, retry_after }) => {
            assert_eq!(message, "failed to stat /real/s2.jsonl: permission denied");
            assert_eq!(retry_after, Wait { secs: 5, nanos: 0 });
        }
        _ => panic!("the failure was lost"),
    }
    world.broken_db = true;
    match world.sweep() {
        Err(TranscriptError::Fatal { message }) => assert_eq!(message, "no database"),
        _ => panic!("the failure was lost"),
    }
}

#[test]
fn files_are_stale_by_size_or_time() {
    assert!(!is_file_stale(metadata(3, Some(9)), record(3, Some(9))));
    assert!(is_file_stale(metadata(3, Some(9)), record(4, Some(9))));
    assert!(is_file_stale(metadata(3, Some(9)), record(3, Some(8))));
    assert!(is_file_stale(metadata(3, Some(9)), record(3, None)));
    assert!(!is_file_stale(metadata(3, None), record(3, Some(8))));
    let early = FileMetadata { len: 3, modified: ModifiedTime::BeforeEpoch };
    assert!(!is_file_stale(early, record(3, Some(8))));
    assert!(!is_file_stale(metadata(u64::MAX, None), record(-1, None)));
}

#[test]
fn modified_timestamp_is_in_seconds() {
    assert_eq!(get_modified_timestamp(metadata(0, Some(1_700_000_000))), Some(1_700_000_000));
    assert_eq!(get_modified_timestamp(metadata(0, None)), None);
    let early = FileMetadata { len: 0, modified: ModifiedTime::BeforeEpoch };
    assert_eq!(get_modified_timestamp(early), None);
    assert_eq!(get_modified_timestamp(metadata(0, Some(u64::MAX))), Some(-1));
}

#[test]
fn canonical_path_falls_back_to_the_path() {
    let path = PathBuf::from("/a/../b");
    assert_eq!(canonicalize_path(&path, None), PathBuf::from("/a/../b"));
    assert_eq!(canonicalize_path(&path, Some(PathBuf::from("/b"))), PathBuf::from("/b"));
}

/// A transcript without a canonical path is looked at where it was found.
#[test]
fn sweep_uses_the_path_as_found() {
    let coordinator = SweepCoordinator::new(vec!["agent".to_string()]);
    assert_eq!(coordinator.agent_registry, vec!["agent"]);
    let mut step = coordinator.run_sweep();
    let mut resolved = None;
    loop {
        match step {
            Step::Ask(run) => {
                let reply = match run.request() {
                    SweepRequest::Strategy { .. } => {
                        SweepReply::Strategy(SweepStrategy::Periodic { interval_secs: 1 })
                    }
                    SweepRequest::Discover { .. } => {
                        SweepReply::Discovered(Some(vec![session("s9")]))
                    }
                    SweepRequest::Streams { .. } => SweepReply::Streams(vec![StreamDescriptor {
                        stream_kind: "transcript".to_string(),
                        shared: false,
                    }]),
                    SweepRequest::Canonicalize { .. } => SweepReply::Canonical(None),
                    SweepRequest::Resolve { canonical, .. } => {
                        resolved = Some(canonical.clone());
                        SweepReply::Resolved(None)
                    }
                    _ => panic!("unexpected request"),
                };
                step = run.resume(reply);
            }
            Step::Done(result) => {
                assert!(result.unwrap().is_empty());
                break;
            }
        }
    }
    assert_eq!(resolved, Some(PathBuf::from("/link/s9")));
}

#[test]
fn unfitting_answer_leaves_the_sweep_as_it_was() {
    let coordinator = SweepCoordinator::new(vec!["agent".to_string()]);
    match coordinator.run_sweep() {
        Step::Ask(run) => match run.resume(SweepReply::Exists(true)) {
            Step::Ask(run) => {
                assert!(matches!(run.request(), SweepRequest::Strategy { agent: 0 }))
            }
            Step::Done(_) => panic!("an answer was made up"),
        },
        Step::Done(_) => panic!("nothing was asked"),
    }
}
