//! Periodic sweeps over the sessions of all registered agents.
use crate::numbers::{wrap_i64, wrapped_i64};
use crate::step::Step;
use crate::transcript::{TranscriptError, TranscriptErrorView, Wait};
use std::path::PathBuf;
use vstd::prelude::*;
use vstd::string::StringExecFns;

verus! {

/// When the sessions of an agent are looked for.
#[derive(Clone, Copy, Debug)]
pub enum SweepStrategy {
    /// At each sweep; sweeps are some seconds apart.
    Periodic { interval_secs: u64 },
    /// Never by a sweep.
    Unswept,
}

/// A stream of data that an agent keeps for its sessions.
#[derive(Debug)]
pub struct StreamDescriptor {
    /// The kind of stream, under which the database files it.
    pub stream_kind: String,
    /// Whether one file serves several sessions.
    pub shared: bool,
}

/// A session that an agent found.
#[derive(Debug)]
pub struct DiscoveredSession {
    pub session_id: String,
    pub tool: String,
    pub transcript_path: PathBuf,
    pub external_session_id: String,
    pub external_parent_session_id: Option<String>,
}

/// A session that needs processing.
#[derive(Clone, Debug)]
pub struct SessionToProcess {
    pub session_id: String,
    pub tool: String,
    pub canonical_path: PathBuf,
    pub external_session_id: String,
    pub external_parent_session_id: Option<String>,
}

/// The file of a stream: its path, and the path in the form for display, under
/// which the database files it.
#[derive(Debug)]
pub struct StreamFile {
    pub path: PathBuf,
    pub display: String,
}

/// What the database knows of a file since it was last processed.
#[derive(Clone, Copy, Debug)]
pub struct SessionRecord {
    pub last_known_size: i64,
    pub last_modified: Option<i64>,
}

/// When a file was last modified.
#[derive(Clone, Copy, Debug)]
pub enum ModifiedTime {
    /// The file system does not say.
    Unknown,
    /// Before the Unix epoch.
    BeforeEpoch,
    /// So many whole seconds after the Unix epoch.
    SinceEpoch { secs: u64 },
}

/// What the file system says of a file.
#[derive(Clone, Copy, Debug)]
pub struct FileMetadata {
    pub len: u64,
    pub modified: ModifiedTime,
}

/// The second in which a file was modified, where it is known and not before
/// the Unix epoch.
pub open spec fn modified_second(metadata: FileMetadata) -> Option<i64> {
    match metadata.modified {
        ModifiedTime::SinceEpoch { secs } => Some(wrapped_i64(secs as int) as i64),
        _ => None,
    }
}

/// Whether a file has changed since it was last processed: it has another size,
/// or was modified in another second than the one on record.
pub open spec fn file_changed(metadata: FileMetadata, existing: SessionRecord) -> bool {
    ||| wrapped_i64(metadata.len as int) != existing.last_known_size
    ||| modified_second(metadata) is Some && modified_second(metadata) != existing.last_modified
}

/// The error for a file whose metadata could not be read.
pub open spec fn stat_error(file: StreamFile, message: Seq<char>) -> TranscriptErrorView {
    TranscriptErrorView::Transient {
        message: "failed to stat "@ + file.display@ + ": "@ + message,
        retry_after: Wait { secs: 5, nanos: 0 },
    }
}

/// The second in which a file was modified, where it is known and not before
/// the Unix epoch.
pub fn get_modified_timestamp(metadata: FileMetadata) -> (second: Option<i64>)
    ensures
        second == modified_second(metadata),
{
    match metadata.modified {
        ModifiedTime::SinceEpoch { secs } => Some(wrap_i64(secs)),
        _ => None,
    }
}

/// Whether a file has changed since it was last processed.
pub fn is_file_stale(metadata: FileMetadata, existing: SessionRecord) -> (stale: bool)
    ensures
        stale == file_changed(metadata, existing),
        metadata.len != existing.last_known_size && metadata.len <= i64::MAX ==> stale,
        metadata.len > i64::MAX && metadata.len - 0x1_0000_0000_0000_0000
            != existing.last_known_size ==> stale,
        metadata.len == existing.last_known_size || metadata.len - 0x1_0000_0000_0000_0000
            == existing.last_known_size ==> (stale <==> (match metadata.modified {
            ModifiedTime::SinceEpoch { secs } => match existing.last_modified {
                Some(then) => then != secs && then != secs - 0x1_0000_0000_0000_0000,
                None => true,
            },
            _ => false,
        })),
{
    let file_size = wrap_i64(metadata.len);
    let modified = get_modified_timestamp(metadata);
    if file_size != existing.last_known_size {
        true
    } else {
        match (modified, existing.last_modified) {
            (Some(now), Some(then)) => now != then,
            (Some(_), None) => true,
            (None, _) => false,
        }
    }
}

/// The canonical form of `path`, from what the file system gave; `path` itself
/// where it gave none.
pub fn canonicalize_path(path: &PathBuf, canonical: Option<PathBuf>) -> (result: PathBuf)
    ensures
        result == canonical_or(*path, canonical),
{
    match canonical {
        Some(c) => c,
        None => path.clone(),
    }
}

/// `canonical`, or `path` where there is none.
pub open spec fn canonical_or(path: PathBuf, canonical: Option<PathBuf>) -> PathBuf {
    match canonical {
        Some(c) => c,
        None => path,
    }
}

fn failed_stat(file: &StreamFile, message: &String) -> (error: TranscriptError)
    ensures
        error@ == stat_error(*file, message@),
{
    let mut text = "failed to stat ".to_string();
    text.append(file.display.as_str());
    text.append(": ");
    text.append(message.as_str());
    TranscriptError::Transient { message: text, retry_after: Wait { secs: 5, nanos: 0 } }
}

/// The session under which a stream file is on record.
#[derive(Debug)]
pub enum SessionId<'a> {
    /// The session that was found.
    Given(&'a String),
    /// The session whose identifier is derived from the path of a shared file
    /// and the tool.
    Derived { path: &'a String, tool: &'a String },
}

/// A session that is being looked at, among those of one agent.
#[derive(Debug)]
pub struct SessionPlace {
    pub agent: usize,
    pub streams: Vec<StreamDescriptor>,
    pub sessions: Vec<DiscoveredSession>,
    pub session: usize,
}

/// A stream that is being looked at, for one session.
#[derive(Debug)]
pub struct StreamPlace {
    pub at: SessionPlace,
    pub canonical: PathBuf,
    pub stream: usize,
}

/// What a sweep waits for.
#[derive(Debug)]
pub enum SweepPhase {
    /// The strategy of an agent.
    Strategy { agent: usize },
    /// The sessions of an agent.
    Discovery { agent: usize },
    /// The streams that an agent keeps.
    Streams { agent: usize, sessions: Vec<DiscoveredSession> },
    /// The canonical path of the transcript of a session.
    Canonical { at: SessionPlace },
    /// The file of a stream.
    Resolve { place: StreamPlace },
    /// Whether that file exists.
    Exists { place: StreamPlace, file: StreamFile },
    /// What the database has on record for that file.
    LookUp { place: StreamPlace, file: StreamFile },
    /// What the file system says of that file.
    Stat { place: StreamPlace, file: StreamFile, existing: SessionRecord },
}

/// What a sweep needs from agents, file system and database.
#[allow(inconsistent_fields)]
#[derive(Debug)]
pub enum SweepRequest<'a> {
    /// The strategy of the agent.
    Strategy { agent: usize },
    /// The sessions that the agent finds.
    Discover { agent: usize },
    /// The streams that the agent keeps.
    Streams { agent: usize },
    /// The canonical form of `path`.
    Canonicalize { path: &'a PathBuf },
    /// The file of the stream, for the transcript at `canonical`.
    Resolve { agent: usize, stream: usize, canonical: &'a PathBuf },
    /// Whether there is a file at `path`.
    Exists { path: &'a PathBuf },
    /// The record of the session for this kind of stream and path.
    LookUp { session_id: SessionId<'a>, stream_kind: &'a String, path: &'a String },
    /// The metadata of the file at `path`.
    Stat { path: &'a PathBuf },
}

/// What agents, file system and database answered.
#[derive(Debug)]
pub enum SweepReply {
    Strategy(SweepStrategy),
    /// The sessions of the agent, or `None` where looking for them failed.
    Discovered(Option<Vec<DiscoveredSession>>),
    Streams(Vec<StreamDescriptor>),
    /// The canonical path, or `None` where there is none.
    Canonical(Option<PathBuf>),
    /// The file of the stream, or `None` where the session has none.
    Resolved(Option<StreamFile>),
    Exists(bool),
    /// The record, `None` where there is none.
    Record(Result<Option<SessionRecord>, TranscriptError>),
    /// The metadata, or the reason why they could not be read.
    Metadata(Result<FileMetadata, String>),
}

/// A sweep under way.
#[derive(Debug)]
pub struct SweepRun {
    agents: usize,
    found: Vec<SessionToProcess>,
    phase: SweepPhase,
}

/// How a sweep stands.
pub type SweepStep = Step<SweepRun, Result<Vec<SessionToProcess>, TranscriptError>>;

impl SessionPlace {
    /// Whether the place is one of a session, of an agent among `agents`.
    pub open spec fn exists_among(self, agents: int) -> bool {
        self.agent < agents && self.session < self.sessions@.len()
    }

    /// The session at the place.
    pub open spec fn current(self) -> DiscoveredSession {
        self.sessions@[self.session as int]
    }

    /// The place after this one.
    pub open spec fn following(self) -> SessionPlace {
        SessionPlace { session: (self.session + 1) as usize, ..self }
    }
}

impl StreamPlace {
    /// Whether the place is one of a stream.
    pub open spec fn exists_among(self, agents: int) -> bool {
        self.at.exists_among(agents) && self.stream < self.at.streams@.len()
    }

    /// The stream at the place.
    pub open spec fn current(self) -> StreamDescriptor {
        self.at.streams@[self.stream as int]
    }

    /// The place after this one.
    pub open spec fn following(self) -> StreamPlace {
        StreamPlace { stream: (self.stream + 1) as usize, ..self }
    }
}

/// A session with the canonical path of its transcript.
pub open spec fn session_to_process(
    session: DiscoveredSession,
    canonical: PathBuf,
) -> SessionToProcess {
    SessionToProcess {
        session_id: session.session_id,
        tool: session.tool,
        canonical_path: canonical,
        external_session_id: session.external_session_id,
        external_parent_session_id: session.external_parent_session_id,
    }
}

/// The session under which the file of a stream is on record.
pub open spec fn recorded_under<'a>(
    stream: StreamDescriptor,
    session: &'a DiscoveredSession,
    file: &'a StreamFile,
) -> SessionId<'a> {
    if stream.shared {
        SessionId::Derived { path: &file.display, tool: &session.tool }
    } else {
        SessionId::Given(&session.session_id)
    }
}

impl SweepPhase {
    /// Whether the phase is at an agent, a session and a stream that exist.
    pub open spec fn well_placed(self, agents: int) -> bool {
        match self {
            SweepPhase::Strategy { agent } => agent < agents,
            SweepPhase::Discovery { agent } => agent < agents,
            SweepPhase::Streams { agent, .. } => agent < agents,
            SweepPhase::Canonical { at } => at.exists_among(agents),
            SweepPhase::Resolve { place } => place.exists_among(agents),
            SweepPhase::Exists { place, .. } => place.exists_among(agents),
            SweepPhase::LookUp { place, .. } => place.exists_among(agents),
            SweepPhase::Stat { place, .. } => place.exists_among(agents),
        }
    }
}

/// Whether the sweep waits in `phase`, with `found` sessions so far.
pub open spec fn waits(
    step: SweepStep,
    agents: int,
    phase: SweepPhase,
    found: Seq<SessionToProcess>,
) -> bool {
    &&& step matches Step::Ask(run)
    &&& run.agents() == agents
    &&& run.phase() == phase
    &&& run.found() == found
}

/// Whether the sweep is over, with `found` sessions.
pub open spec fn ends_with(step: SweepStep, found: Seq<SessionToProcess>) -> bool {
    step matches Step::Done(Ok(sessions)) && sessions@ == found
}

/// Whether the sweep has failed with `error`.
pub open spec fn fails_with(step: SweepStep, error: TranscriptErrorView) -> bool {
    step matches Step::Done(Err(e)) && e@ == error
}

/// Whether the sweep turns to `agent`, or is over where there is no such agent.
pub open spec fn turns_to_agent(
    step: SweepStep,
    agents: int,
    agent: int,
    found: Seq<SessionToProcess>,
) -> bool {
    if agent < agents {
        waits(step, agents, SweepPhase::Strategy { agent: agent as usize }, found)
    } else {
        ends_with(step, found)
    }
}

/// Whether the sweep turns to the session at `at`, or to the next agent where
/// there is none.
pub open spec fn turns_to_session(
    step: SweepStep,
    agents: int,
    at: SessionPlace,
    found: Seq<SessionToProcess>,
) -> bool {
    if at.session < at.sessions@.len() {
        waits(step, agents, SweepPhase::Canonical { at }, found)
    } else {
        turns_to_agent(step, agents, at.agent + 1, found)
    }
}

/// Whether the sweep turns to the stream at `place`, or to the next session
/// where there is none.
pub open spec fn turns_to_stream(
    step: SweepStep,
    agents: int,
    place: StreamPlace,
    found: Seq<SessionToProcess>,
) -> bool {
    if place.stream < place.at.streams@.len() {
        waits(step, agents, SweepPhase::Resolve { place }, found)
    } else {
        turns_to_session(step, agents, place.at.following(), found)
    }
}

/// Whether the sweep keeps the session and turns to the next one.
pub open spec fn keeps_session(
    step: SweepStep,
    agents: int,
    place: StreamPlace,
    found: Seq<SessionToProcess>,
) -> bool {
    turns_to_session(
        step,
        agents,
        place.at.following(),
        found.push(session_to_process(place.at.current(), place.canonical)),
    )
}

fn next_agent(agents: usize, found: Vec<SessionToProcess>, agent: usize) -> (step: SweepStep)
    requires
        agent < agents,
    ensures
        turns_to_agent(step, agents as int, agent + 1, found@),
{
    if agent + 1 < agents {
        Step::Ask(SweepRun { agents, found, phase: SweepPhase::Strategy { agent: agent + 1 } })
    } else {
        Step::Done(Ok(found))
    }
}

fn this_session(agents: usize, found: Vec<SessionToProcess>, at: SessionPlace) -> (step: SweepStep)
    requires
        at.agent < agents,
    ensures
        turns_to_session(step, agents as int, at, found@),
{
    if at.session < at.sessions.len() {
        Step::Ask(SweepRun { agents, found, phase: SweepPhase::Canonical { at } })
    } else {
        next_agent(agents, found, at.agent)
    }
}

fn next_session(agents: usize, found: Vec<SessionToProcess>, at: SessionPlace) -> (step: SweepStep)
    requires
        at.exists_among(agents as int),
    ensures
        turns_to_session(step, agents as int, at.following(), found@),
{
    assert(at.session < at.sessions.len());
    let session: usize = at.session + 1;
    this_session(
        agents,
        found,
        SessionPlace { agent: at.agent, streams: at.streams, sessions: at.sessions, session },
    )
}

fn this_stream(agents: usize, found: Vec<SessionToProcess>, place: StreamPlace) -> (step: SweepStep)
    requires
        place.at.exists_among(agents as int),
    ensures
        turns_to_stream(step, agents as int, place, found@),
{
    if place.stream < place.at.streams.len() {
        Step::Ask(SweepRun { agents, found, phase: SweepPhase::Resolve { place } })
    } else {
        next_session(agents, found, place.at)
    }
}

fn next_stream(agents: usize, found: Vec<SessionToProcess>, place: StreamPlace) -> (step: SweepStep)
    requires
        place.exists_among(agents as int),
    ensures
        turns_to_stream(step, agents as int, place.following(), found@),
{
    assert(place.stream < place.at.streams.len());
    let stream: usize = place.stream + 1;
    this_stream(
        agents,
        found,
        StreamPlace { at: place.at, canonical: place.canonical, stream },
    )
}

fn keep_session(agents: usize, found: Vec<SessionToProcess>, place: StreamPlace) -> (step:
    SweepStep)
    requires
        place.exists_among(agents as int),
    ensures
        keeps_session(step, agents as int, place, found@),
{
    let mut found = found;
    let session = &place.at.sessions[place.at.session];
    let parent = match &session.external_parent_session_id {
        Some(id) => Some(id.clone()),
        None => None,
    };
    found.push(
        SessionToProcess {
            session_id: session.session_id.clone(),
            tool: session.tool.clone(),
            canonical_path: place.canonical,
            external_session_id: session.external_session_id.clone(),
            external_parent_session_id: parent,
        },
    );
    next_session(agents, found, place.at)
}

impl SweepRun {
    #[verifier::type_invariant]
    spec fn is_well_placed(self) -> bool {
        self.phase.well_placed(self.agents as int)
    }

    /// The number of agents.
    pub closed spec fn agents(self) -> int {
        self.agents as int
    }

    /// The sessions that need processing, among those looked at so far.
    pub closed spec fn found(self) -> Seq<SessionToProcess> {
        self.found@
    }

    /// What the sweep waits for.
    pub closed spec fn phase(self) -> SweepPhase {
        self.phase
    }

    /// Whether `request` is what the sweep needs next.
    pub open spec fn needs(self, request: SweepRequest) -> bool {
        match self.phase() {
            SweepPhase::Strategy { agent } => request == (SweepRequest::Strategy { agent }),
            SweepPhase::Discovery { agent } => request == (SweepRequest::Discover { agent }),
            SweepPhase::Streams { agent, .. } => request == (SweepRequest::Streams { agent }),
            SweepPhase::Canonical { at } => request == (SweepRequest::Canonicalize {
                path: &at.current().transcript_path,
            }),
            SweepPhase::Resolve { place } => request == (SweepRequest::Resolve {
                agent: place.at.agent,
                stream: place.stream,
                canonical: &place.canonical,
            }),
            SweepPhase::Exists { file, .. } => request == (SweepRequest::Exists {
                path: &file.path,
            }),
            SweepPhase::LookUp { place, file } => request == (SweepRequest::LookUp {
                session_id: recorded_under(place.current(), &place.at.current(), &file),
                stream_kind: &place.current().stream_kind,
                path: &file.display,
            }),
            SweepPhase::Stat { file, .. } => request == (SweepRequest::Stat { path: &file.path }),
        }
    }

    /// Whether `step` is how the sweep goes on after `reply`.
    pub open spec fn goes_on(self, reply: SweepReply, step: SweepStep) -> bool {
        let agents = self.agents();
        let found = self.found();
        match (self.phase(), reply) {
            (SweepPhase::Strategy { agent }, SweepReply::Strategy(strategy)) => {
                if strategy is Periodic {
                    waits(step, agents, SweepPhase::Discovery { agent }, found)
                } else {
                    turns_to_agent(step, agents, agent + 1, found)
                }
            },
            (SweepPhase::Discovery { agent }, SweepReply::Discovered(discovered)) => {
                match discovered {
                    Some(sessions) => waits(
                        step,
                        agents,
                        SweepPhase::Streams { agent, sessions },
                        found,
                    ),
                    None => turns_to_agent(step, agents, agent + 1, found),
                }
            },
            (SweepPhase::Streams { agent, sessions }, SweepReply::Streams(streams)) => {
                turns_to_session(
                    step,
                    agents,
                    SessionPlace { agent, streams, sessions, session: 0 },
                    found,
                )
            },
            (SweepPhase::Canonical { at }, SweepReply::Canonical(answer)) => {
                let canonical = canonical_or(at.current().transcript_path, answer);
                turns_to_stream(step, agents, StreamPlace { at, canonical, stream: 0 }, found)
            },
            (SweepPhase::Resolve { place }, SweepReply::Resolved(resolved)) => match resolved {
                Some(file) => waits(step, agents, SweepPhase::Exists { place, file }, found),
                None => turns_to_stream(step, agents, place.following(), found),
            },
            (SweepPhase::Exists { place, file }, SweepReply::Exists(there)) => {
                if there {
                    waits(step, agents, SweepPhase::LookUp { place, file }, found)
                } else {
                    turns_to_stream(step, agents, place.following(), found)
                }
            },
            (SweepPhase::LookUp { place, file }, SweepReply::Record(outcome)) => match outcome {
                Ok(Some(existing)) => waits(
                    step,
                    agents,
                    SweepPhase::Stat { place, file, existing },
                    found,
                ),
                Ok(None) => keeps_session(step, agents, place, found),
                Err(e) => fails_with(step, e@),
            },
            (SweepPhase::Stat { place, file, existing }, SweepReply::Metadata(outcome)) => {
                match outcome {
                    Ok(metadata) => if file_changed(metadata, existing) {
                        keeps_session(step, agents, place, found)
                    } else {
                        turns_to_stream(step, agents, place.following(), found)
                    },
                    Err(message) => fails_with(step, stat_error(file, message@)),
                }
            },
            _ => step == SweepStep::Ask(self),
        }
    }

    /// What the sweep needs next.
    pub fn request(&self) -> (request: SweepRequest<'_>)
        ensures
            self.needs(request),
    {
        proof {
            use_type_invariant(self);
        }
        match &self.phase {
            SweepPhase::Strategy { agent } => SweepRequest::Strategy { agent: *agent },
            SweepPhase::Discovery { agent } => SweepRequest::Discover { agent: *agent },
            SweepPhase::Streams { agent, .. } => SweepRequest::Streams { agent: *agent },
            SweepPhase::Canonical { at } => SweepRequest::Canonicalize {
                path: &at.sessions[at.session].transcript_path,
            },
            SweepPhase::Resolve { place } => SweepRequest::Resolve {
                agent: place.at.agent,
                stream: place.stream,
                canonical: &place.canonical,
            },
            SweepPhase::Exists { file, .. } => SweepRequest::Exists { path: &file.path },
            SweepPhase::LookUp { place, file } => {
                let session = &place.at.sessions[place.at.session];
                let stream = &place.at.streams[place.stream];
                let session_id = if stream.shared {
                    SessionId::Derived { path: &file.display, tool: &session.tool }
                } else {
                    SessionId::Given(&session.session_id)
                };
                SweepRequest::LookUp {
                    session_id,
                    stream_kind: &stream.stream_kind,
                    path: &file.display,
                }
            },
            SweepPhase::Stat { file, .. } => SweepRequest::Stat { path: &file.path },
        }
    }

    /// Goes on with what was answered.
    pub fn resume(self, reply: SweepReply) -> (step: SweepStep)
        ensures
            self.goes_on(reply, step),
    {
        proof {
            use_type_invariant(&self);
        }
        let SweepRun { agents, found, phase } = self;
        match (phase, reply) {
            (SweepPhase::Strategy { agent }, SweepReply::Strategy(strategy)) => match strategy {
                SweepStrategy::Periodic { .. } => Step::Ask(
                    SweepRun { agents, found, phase: SweepPhase::Discovery { agent } },
                ),
                SweepStrategy::Unswept => next_agent(agents, found, agent),
            },
            (SweepPhase::Discovery { agent }, SweepReply::Discovered(discovered)) => {
                match discovered {
                    Some(sessions) => Step::Ask(
                        SweepRun { agents, found, phase: SweepPhase::Streams { agent, sessions } },
                    ),
                    None => next_agent(agents, found, agent),
                }
            },
            (SweepPhase::Streams { agent, sessions }, SweepReply::Streams(streams)) => {
                this_session(agents, found, SessionPlace { agent, streams, sessions, session: 0 })
            },
            (SweepPhase::Canonical { at }, SweepReply::Canonical(answer)) => {
                let canonical = canonicalize_path(
                    &at.sessions[at.session].transcript_path,
                    answer,
                );
                this_stream(agents, found, StreamPlace { at, canonical, stream: 0 })
            },
            (SweepPhase::Resolve { place }, SweepReply::Resolved(resolved)) => match resolved {
                Some(file) => Step::Ask(
                    SweepRun { agents, found, phase: SweepPhase::Exists { place, file } },
                ),
                None => next_stream(agents, found, place),
            },
            (SweepPhase::Exists { place, file }, SweepReply::Exists(there)) => {
                if there {
                    Step::Ask(SweepRun { agents, found, phase: SweepPhase::LookUp { place, file } })
                } else {
                    next_stream(agents, found, place)
                }
            },
            (SweepPhase::LookUp { place, file }, SweepReply::Record(outcome)) => match outcome {
                Ok(Some(existing)) => Step::Ask(
                    SweepRun { agents, found, phase: SweepPhase::Stat { place, file, existing } },
                ),
                Ok(None) => keep_session(agents, found, place),
                Err(e) => Step::Done(Err(e)),
            },
            (SweepPhase::Stat { place, file, existing }, SweepReply::Metadata(outcome)) => {
                match outcome {
                    Ok(metadata) => if is_file_stale(metadata, existing) {
                        keep_session(agents, found, place)
                    } else {
                        next_stream(agents, found, place)
                    },
                    Err(message) => Step::Done(Err(failed_stat(&file, &message))),
                }
            },
            (phase, _) => Step::Ask(SweepRun { agents, found, phase }),
        }
    }
}

/// Orchestrates periodic sweeps across all registered agents.
///
/// A sweep looks for the sessions of each agent, then checks whether any of
/// the stream files of a session is new or has changed since it was last
/// processed. Only sessions with such a file are handed on for processing.
#[derive(Debug)]
pub struct SweepCoordinator {
    /// The types of the registered agents, in the order of the sweep.
    pub agent_registry: Vec<String>,
}

impl SweepCoordinator {
    /// A coordinator for the registered agents.
    pub fn new(agent_registry: Vec<String>) -> (coordinator: Self)
        ensures
            coordinator.agent_registry == agent_registry,
    {
        SweepCoordinator { agent_registry }
    }

    /// Begins a full sweep across all agents.
    pub fn run_sweep(&self) -> (step: SweepStep)
        ensures
            turns_to_agent(step, self.agent_registry@.len() as int, 0, Seq::empty()),
    {
        let agents: usize = self.agent_registry.len();
        let found: Vec<SessionToProcess> = Vec::new();
        assert(found@ =~= Seq::empty());
        if agents > 0 {
            Step::Ask(SweepRun { agents, found, phase: SweepPhase::Strategy { agent: 0 } })
        } else {
            Step::Done(Ok(found))
        }
    }
}

} // verus!
