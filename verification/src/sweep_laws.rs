//! Laws of sweeps: what a sweep finds in a world that does not change
//! meanwhile.
use crate::step::Step;
use crate::sweep_coordinator::{
    canonical_or, file_changed, keeps_session, recorded_under, session_to_process, stat_error,
    turns_to_agent, turns_to_session, turns_to_stream, DiscoveredSession, FileMetadata,
    ModifiedTime, SessionId, SessionPlace, SessionRecord, SessionToProcess, StreamDescriptor,
    StreamFile, StreamPlace, SweepCoordinator, SweepPhase, SweepReply, SweepRequest, SweepRun,
    SweepStep,
};
use crate::transcript::{TranscriptError, TranscriptErrorView, Wait};
use std::path::PathBuf;
use vstd::prelude::*;

verus! {

/// The session under which a stream file is on record.
pub enum SessionKey {
    Given(Seq<char>),
    Derived { path: Seq<char>, tool: Seq<char> },
}

/// What agents, file system and database answer during a sweep. Agents and
/// their streams go by number.
pub struct SweepWorld {
    pub agents: int,
    pub periodic: spec_fn(int) -> bool,
    pub discovered: spec_fn(int) -> Option<Seq<DiscoveredSession>>,
    pub streams: spec_fn(int) -> Seq<StreamDescriptor>,
    pub canonical: spec_fn(PathBuf) -> Option<PathBuf>,
    pub resolved: spec_fn(int, int, PathBuf) -> Option<StreamFile>,
    pub present: spec_fn(PathBuf) -> bool,
    pub record: spec_fn(SessionKey, Seq<char>, Seq<char>) -> Result<
        Option<SessionRecord>,
        TranscriptErrorView,
    >,
    pub metadata: spec_fn(PathBuf) -> Result<FileMetadata, Seq<char>>,
}

/// What a sweep comes to.
pub type SweepOutcome = Result<Seq<SessionToProcess>, TranscriptErrorView>;

/// The result of a sweep, as an outcome.
pub open spec fn outcome_of(
    result: Result<Vec<SessionToProcess>, TranscriptError>,
) -> SweepOutcome {
    match result {
        Ok(sessions) => Ok(sessions@),
        Err(e) => Err(e@),
    }
}

/// The session that `id` stands for.
pub open spec fn key_of(id: SessionId) -> SessionKey {
    match id {
        SessionId::Given(id) => SessionKey::Given(id@),
        SessionId::Derived { path, tool } => SessionKey::Derived { path: path@, tool: tool@ },
    }
}

impl SweepWorld {
    /// Whether `reply` is what the world answers to `request`.
    pub open spec fn answers(self, request: SweepRequest, reply: SweepReply) -> bool {
        match request {
            SweepRequest::Strategy { agent } => {
                reply matches SweepReply::Strategy(s) && (s is Periodic) == (self.periodic)(
                    agent as int,
                )
            },
            SweepRequest::Discover { agent } => {
                reply matches SweepReply::Discovered(found) && match found {
                    Some(sessions) => (self.discovered)(agent as int) == Some(sessions@),
                    None => (self.discovered)(agent as int) is None,
                }
            },
            SweepRequest::Streams { agent } => {
                reply matches SweepReply::Streams(streams) && streams@ == (self.streams)(
                    agent as int,
                )
            },
            SweepRequest::Canonicalize { path } => reply == SweepReply::Canonical(
                (self.canonical)(*path),
            ),
            SweepRequest::Resolve { agent, stream, canonical } => reply == SweepReply::Resolved(
                (self.resolved)(agent as int, stream as int, *canonical),
            ),
            SweepRequest::Exists { path } => reply == SweepReply::Exists((self.present)(*path)),
            SweepRequest::LookUp { session_id, stream_kind, path } => {
                reply matches SweepReply::Record(outcome) && match outcome {
                    Ok(record) => (self.record)(key_of(session_id), stream_kind@, path@) == Ok::<
                        Option<SessionRecord>,
                        TranscriptErrorView,
                    >(record),
                    Err(e) => (self.record)(key_of(session_id), stream_kind@, path@) == Err::<
                        Option<SessionRecord>,
                        TranscriptErrorView,
                    >(e@),
                }
            },
            SweepRequest::Stat { path } => {
                reply matches SweepReply::Metadata(outcome) && match outcome {
                    Ok(metadata) => (self.metadata)(*path) == Ok::<FileMetadata, Seq<char>>(
                        metadata,
                    ),
                    Err(message) => (self.metadata)(*path) == Err::<FileMetadata, Seq<char>>(
                        message@,
                    ),
                }
            },
        }
    }

    /// The canonical path of the transcript of a session, or its path as found
    /// where there is none.
    pub open spec fn canonical_path(self, session: DiscoveredSession) -> PathBuf {
        canonical_or(
            session.transcript_path,
            (self.canonical)(session.transcript_path),
        )
    }

    /// Whether a file that is on record has changed since.
    pub open spec fn changed_since(
        self,
        file: StreamFile,
        existing: SessionRecord,
    ) -> Result<bool, TranscriptErrorView> {
        match (self.metadata)(file.path) {
            Ok(metadata) => Ok(file_changed(metadata, existing)),
            Err(message) => Err(stat_error(file, message)),
        }
    }

    /// Whether a stream file that is there is new or has changed.
    pub open spec fn new_or_changed(
        self,
        session: DiscoveredSession,
        stream: StreamDescriptor,
        file: StreamFile,
    ) -> Result<bool, TranscriptErrorView> {
        let id = recorded_under(stream, &session, &file);
        match (self.record)(key_of(id), stream.stream_kind@, file.display@) {
            Ok(None) => Ok(true),
            Ok(Some(existing)) => self.changed_since(file, existing),
            Err(e) => Err(e),
        }
    }

    /// Whether a stream file is there and is new or has changed.
    pub open spec fn there_and_stale(
        self,
        session: DiscoveredSession,
        stream: StreamDescriptor,
        file: StreamFile,
    ) -> Result<bool, TranscriptErrorView> {
        if (self.present)(file.path) {
            self.new_or_changed(session, stream, file)
        } else {
            Ok(false)
        }
    }

    /// Whether the stream `i` of the agent is stale for a session whose
    /// transcript is at `canonical`.
    pub open spec fn stream_stale(
        self,
        agent: int,
        streams: Seq<StreamDescriptor>,
        session: DiscoveredSession,
        canonical: PathBuf,
        i: int,
    ) -> Result<bool, TranscriptErrorView> {
        match (self.resolved)(agent, i, canonical) {
            Some(file) => self.there_and_stale(session, streams[i], file),
            None => Ok(false),
        }
    }

    /// Whether any stream from `i` on is stale; the first stale stream or
    /// failure decides.
    pub open spec fn any_stream_stale(
        self,
        agent: int,
        streams: Seq<StreamDescriptor>,
        session: DiscoveredSession,
        canonical: PathBuf,
        i: int,
    ) -> Result<bool, TranscriptErrorView>
        decreases streams.len() - i,
    {
        if i >= streams.len() {
            Ok(false)
        } else {
            match self.stream_stale(agent, streams, session, canonical, i) {
                Ok(false) => self.any_stream_stale(agent, streams, session, canonical, i + 1),
                verdict => verdict,
            }
        }
    }

    /// Whether a session of the agent needs processing.
    pub open spec fn session_stale(self, agent: int, session: DiscoveredSession) -> Result<
        bool,
        TranscriptErrorView,
    > {
        self.any_stream_stale(
            agent,
            (self.streams)(agent),
            session,
            self.canonical_path(session),
            0,
        )
    }

    /// The sessions found so far, with those of the agent from `j` on that
    /// need processing; the first failure decides.
    pub open spec fn with_sessions(
        self,
        agent: int,
        sessions: Seq<DiscoveredSession>,
        j: int,
        found: Seq<SessionToProcess>,
    ) -> SweepOutcome
        decreases sessions.len() - j,
    {
        if j >= sessions.len() {
            Ok(found)
        } else {
            match self.session_stale(agent, sessions[j]) {
                Ok(stale) => self.with_sessions(
                    agent,
                    sessions,
                    j + 1,
                    self.kept(sessions[j], self.canonical_path(sessions[j]), stale, found),
                ),
                Err(e) => Err(e),
            }
        }
    }

    /// The sessions found so far, with `session` if it is stale.
    pub open spec fn kept(
        self,
        session: DiscoveredSession,
        canonical: PathBuf,
        stale: bool,
        found: Seq<SessionToProcess>,
    ) -> Seq<SessionToProcess> {
        if stale {
            found.push(session_to_process(session, canonical))
        } else {
            found
        }
    }

    /// The sessions found so far, with those of the agents from `agent` on
    /// that need processing. Agents that are not swept periodically are passed
    /// over, and so are those whose sessions could not be looked for.
    pub open spec fn with_agents(self, agent: int, found: Seq<SessionToProcess>) -> SweepOutcome
        decreases self.agents - agent,
    {
        if agent >= self.agents {
            Ok(found)
        } else if !(self.periodic)(agent) {
            self.with_agents(agent + 1, found)
        } else {
            match (self.discovered)(agent) {
                Some(sessions) => match self.with_sessions(agent, sessions, 0, found) {
                    Ok(more) => self.with_agents(agent + 1, more),
                    Err(e) => Err(e),
                },
                None => self.with_agents(agent + 1, found),
            }
        }
    }

    /// What a sweep comes to in this world.
    pub open spec fn sweep_outcome(self) -> SweepOutcome {
        self.with_agents(0, Seq::empty())
    }

    spec fn after_sessions(
        self,
        agent: int,
        sessions: Seq<DiscoveredSession>,
        j: int,
        found: Seq<SessionToProcess>,
    ) -> SweepOutcome {
        match self.with_sessions(agent, sessions, j, found) {
            Ok(more) => self.with_agents(agent + 1, more),
            Err(e) => Err(e),
        }
    }

    spec fn after_verdict(
        self,
        place: StreamPlace,
        verdict: Result<bool, TranscriptErrorView>,
        found: Seq<SessionToProcess>,
    ) -> SweepOutcome {
        let at = place.at;
        let verdict = match verdict {
            Ok(false) => self.any_stream_stale(
                at.agent as int,
                at.streams@,
                at.current(),
                place.canonical,
                place.stream + 1,
            ),
            verdict => verdict,
        };
        self.after_session(at, place.canonical, verdict, found)
    }

    spec fn after_session(
        self,
        at: SessionPlace,
        canonical: PathBuf,
        verdict: Result<bool, TranscriptErrorView>,
        found: Seq<SessionToProcess>,
    ) -> SweepOutcome {
        match verdict {
            Ok(stale) => self.after_sessions(
                at.agent as int,
                at.sessions@,
                at.session + 1,
                self.kept(at.current(), canonical, stale, found),
            ),
            Err(e) => Err(e),
        }
    }

    /// What a sweep comes to from `phase` on.
    spec fn rest(self, phase: SweepPhase, found: Seq<SessionToProcess>) -> SweepOutcome {
        match phase {
            SweepPhase::Strategy { agent } => self.with_agents(agent as int, found),
            SweepPhase::Discovery { agent } => match (self.discovered)(agent as int) {
                Some(sessions) => self.after_sessions(agent as int, sessions, 0, found),
                None => self.with_agents(agent + 1, found),
            },
            SweepPhase::Streams { agent, sessions } => self.after_sessions(
                agent as int,
                sessions@,
                0,
                found,
            ),
            SweepPhase::Canonical { at } => self.after_sessions(
                at.agent as int,
                at.sessions@,
                at.session as int,
                found,
            ),
            SweepPhase::Resolve { place } => self.after_session(
                place.at,
                place.canonical,
                self.any_stream_stale(
                    place.at.agent as int,
                    place.at.streams@,
                    place.at.current(),
                    place.canonical,
                    place.stream as int,
                ),
                found,
            ),
            SweepPhase::Exists { place, file } => self.after_verdict(
                place,
                self.there_and_stale(place.at.current(), place.current(), file),
                found,
            ),
            SweepPhase::LookUp { place, file } => self.after_verdict(
                place,
                self.new_or_changed(place.at.current(), place.current(), file),
                found,
            ),
            SweepPhase::Stat { place, file, existing } => self.after_verdict(
                place,
                self.changed_since(file, existing),
                found,
            ),
        }
    }

    /// Whether an agent that is asked for sessions or streams is swept
    /// periodically, and the streams of a place are those of its agent.
    spec fn agrees(self, phase: SweepPhase) -> bool {
        match phase {
            SweepPhase::Strategy { .. } => true,
            SweepPhase::Discovery { agent } => (self.periodic)(agent as int),
            SweepPhase::Streams { agent, .. } => (self.periodic)(agent as int),
            SweepPhase::Canonical { at } => self.place_agrees(at),
            SweepPhase::Resolve { place } => self.place_agrees(place.at),
            SweepPhase::Exists { place, .. } => self.place_agrees(place.at),
            SweepPhase::LookUp { place, .. } => self.place_agrees(place.at),
            SweepPhase::Stat { place, .. } => self.place_agrees(place.at),
        }
    }

    spec fn place_agrees(self, at: SessionPlace) -> bool {
        at.streams@ == (self.streams)(at.agent as int)
    }

    /// Whether the run is at a place of this world.
    spec fn follows(self, run: SweepRun) -> bool {
        &&& run.agents() == self.agents
        &&& self.agents <= usize::MAX
        &&& run.phase().well_placed(self.agents)
        &&& self.agrees(run.phase())
    }

    /// Whether `step` is at a place of this world from which the sweep comes to
    /// `outcome`.
    spec fn comes_to(self, step: SweepStep, outcome: SweepOutcome) -> bool {
        match step {
            Step::Ask(run) => self.follows(run) && self.rest(run.phase(), run.found()) == outcome,
            Step::Done(result) => outcome_of(result) == outcome,
        }
    }
}

proof fn lemma_turns_to_agent(
    world: SweepWorld,
    step: SweepStep,
    agent: int,
    found: Seq<SessionToProcess>,
)
    requires
        0 <= agent,
        world.agents <= usize::MAX,
        turns_to_agent(step, world.agents, agent, found),
    ensures
        world.comes_to(step, world.with_agents(agent, found)),
{
}

proof fn lemma_turns_to_session(
    world: SweepWorld,
    step: SweepStep,
    at: SessionPlace,
    found: Seq<SessionToProcess>,
)
    requires
        world.agents <= usize::MAX,
        at.agent < world.agents,
        world.place_agrees(at),
        turns_to_session(step, world.agents, at, found),
    ensures
        world.comes_to(
            step,
            world.after_sessions(at.agent as int, at.sessions@, at.session as int, found),
        ),
{
    if at.session < at.sessions@.len() {
    } else {
        lemma_turns_to_agent(world, step, at.agent + 1, found);
    }
}

proof fn lemma_turns_to_stream(
    world: SweepWorld,
    step: SweepStep,
    place: StreamPlace,
    found: Seq<SessionToProcess>,
)
    requires
        world.agents <= usize::MAX,
        place.at.exists_among(world.agents),
        world.place_agrees(place.at),
        turns_to_stream(step, world.agents, place, found),
    ensures
        world.comes_to(
            step,
            world.after_session(
                place.at,
                place.canonical,
                world.any_stream_stale(
                    place.at.agent as int,
                    place.at.streams@,
                    place.at.current(),
                    place.canonical,
                    place.stream as int,
                ),
                found,
            ),
        ),
{
    if place.stream < place.at.streams@.len() {
    } else {
        assert(place.at.session < place.at.sessions.len());
        lemma_turns_to_session(world, step, place.at.following(), found);
    }
}

proof fn lemma_next_stream(
    world: SweepWorld,
    step: SweepStep,
    place: StreamPlace,
    found: Seq<SessionToProcess>,
)
    requires
        world.agents <= usize::MAX,
        place.exists_among(world.agents),
        world.place_agrees(place.at),
        turns_to_stream(step, world.agents, place.following(), found),
    ensures
        world.comes_to(step, world.after_verdict(place, Ok(false), found)),
{
    assert(place.stream < place.at.streams.len());
    lemma_turns_to_stream(world, step, place.following(), found);
}

proof fn lemma_keeps_session(
    world: SweepWorld,
    step: SweepStep,
    place: StreamPlace,
    found: Seq<SessionToProcess>,
)
    requires
        world.agents <= usize::MAX,
        place.exists_among(world.agents),
        world.place_agrees(place.at),
        keeps_session(step, world.agents, place, found),
    ensures
        world.comes_to(step, world.after_verdict(place, Ok(true), found)),
{
    assert(place.at.session < place.at.sessions.len());
    lemma_turns_to_session(
        world,
        step,
        place.at.following(),
        world.kept(place.at.current(), place.canonical, true, found),
    );
}

/// An answer of the world keeps what the sweep comes to.
proof fn lemma_answer(
    world: SweepWorld,
    run: SweepRun,
    request: SweepRequest,
    reply: SweepReply,
    step: SweepStep,
)
    requires
        world.follows(run),
        run.needs(request),
        world.answers(request, reply),
        run.goes_on(reply, step),
    ensures
        world.comes_to(step, world.rest(run.phase(), run.found())),
{
    let found = run.found();
    match run.phase() {
        SweepPhase::Strategy { agent } => {
            if !(world.periodic)(agent as int) {
                lemma_turns_to_agent(world, step, agent + 1, found);
            }
        },
        SweepPhase::Discovery { agent } => {
            if (world.discovered)(agent as int) is None {
                lemma_turns_to_agent(world, step, agent + 1, found);
            }
        },
        SweepPhase::Streams { agent, sessions } => {
            let streams = reply->Streams_0;
            lemma_turns_to_session(
                world,
                step,
                SessionPlace { agent, streams, sessions, session: 0 },
                found,
            );
        },
        SweepPhase::Canonical { at } => {
            let canonical = world.canonical_path(at.current());
            lemma_turns_to_stream(world, step, StreamPlace { at, canonical, stream: 0 }, found);
        },
        SweepPhase::Resolve { place } => {
            match reply->Resolved_0 {
                Some(file) => {},
                None => {
                    lemma_next_stream(world, step, place, found);
                },
            }
        },
        SweepPhase::Exists { place, file } => {
            if !(world.present)(file.path) {
                lemma_next_stream(world, step, place, found);
            }
        },
        SweepPhase::LookUp { place, file } => {
            match reply->Record_0 {
                Ok(Some(existing)) => {},
                Ok(None) => {
                    lemma_keeps_session(world, step, place, found);
                },
                Err(e) => {},
            }
        },
        SweepPhase::Stat { place, file, existing } => {
            match reply->Metadata_0 {
                Ok(metadata) => {
                    if file_changed(metadata, existing) {
                        lemma_keeps_session(world, step, place, found);
                    } else {
                        lemma_next_stream(world, step, place, found);
                    }
                },
                Err(message) => {},
            }
        },
    }
}

/// One answer during a sweep: where the sweep stood, what it needed, what was
/// answered and how it went on.
pub struct SweepExchange<'a> {
    pub run: SweepRun,
    pub request: SweepRequest<'a>,
    pub reply: SweepReply,
    pub step: SweepStep,
}

/// How the sweep stands after the first `k` answers.
pub open spec fn step_after(first: SweepStep, talk: Seq<SweepExchange>, k: int) -> SweepStep {
    if k == 0 {
        first
    } else {
        talk[k - 1].step
    }
}

impl SweepWorld {
    /// Whether `talk` is a sweep that began with `first`, with this world
    /// answering.
    pub open spec fn conversation(self, first: SweepStep, talk: Seq<SweepExchange>) -> bool {
        forall|k: int|
            0 <= k < talk.len() ==> {
                let exchange = #[trigger] talk[k];
                &&& step_after(first, talk, k) == SweepStep::Ask(exchange.run)
                &&& exchange.run.needs(exchange.request)
                &&& self.answers(exchange.request, exchange.reply)
                &&& exchange.run.goes_on(exchange.reply, exchange.step)
            }
    }

    /// How many answers the streams of one session of the agent take at most.
    pub open spec fn answers_per_session(self, agent: int) -> int {
        1 + 4 * ((self.streams)(agent).len() as int)
    }

    /// How many answers the agents from `agent` on take at most.
    pub open spec fn most_answers(self, agent: int) -> int
        decreases self.agents - agent,
    {
        if agent >= self.agents {
            0
        } else {
            3 + self.session_answers(agent) + self.most_answers(agent + 1)
        }
    }

    /// How many answers the sessions of the agent take at most.
    pub open spec fn session_answers(self, agent: int) -> int {
        match (self.discovered)(agent) {
            Some(sessions) => (sessions.len() as int) * self.answers_per_session(agent),
            None => 0,
        }
    }

    spec fn answers_from_session(self, at: SessionPlace, j: int) -> int {
        (at.sessions@.len() - j) * self.answers_per_session(at.agent as int) + self.most_answers(
            at.agent + 1,
        )
    }

    spec fn answers_from_stream(self, place: StreamPlace) -> int {
        4 * (place.at.streams@.len() - place.stream) + self.answers_from_session(
            place.at,
            place.at.session + 1,
        )
    }

    /// How many answers are left at most.
    spec fn left(self, phase: SweepPhase) -> int {
        match phase {
            SweepPhase::Strategy { agent } => self.most_answers(agent as int),
            SweepPhase::Discovery { agent } => 2 + self.session_answers(agent as int)
                + self.most_answers(agent + 1),
            SweepPhase::Streams { agent, sessions } => 1 + sessions@.len()
                * self.answers_per_session(agent as int) + self.most_answers(agent + 1),
            SweepPhase::Canonical { at } => self.answers_from_session(at, at.session as int),
            SweepPhase::Resolve { place } => self.answers_from_stream(place),
            SweepPhase::Exists { place, .. } => self.answers_from_stream(place) - 1,
            SweepPhase::LookUp { place, .. } => self.answers_from_stream(place) - 2,
            SweepPhase::Stat { place, .. } => self.answers_from_stream(place) - 3,
        }
    }

    spec fn at_most_left(self, step: SweepStep, n: int) -> bool {
        step matches Step::Ask(run) ==> self.left(run.phase()) <= n
    }
}

proof fn lemma_answers_are_counted(world: SweepWorld, agent: int)
    ensures
        0 <= world.session_answers(agent),
        0 <= world.most_answers(agent),
    decreases world.agents - agent,
{
    if (world.discovered)(agent) is Some {
        let n = (world.discovered)(agent)->Some_0.len() as int;
        let per = world.answers_per_session(agent);
        assert(0 <= n * per) by (nonlinear_arith)
            requires
                0 <= n,
                0 <= per,
        ;
    }
    if agent < world.agents {
        lemma_answers_are_counted(world, agent + 1);
    }
}

proof fn lemma_session_is_counted(world: SweepWorld, at: SessionPlace, j: int)
    requires
        j < at.sessions@.len(),
    ensures
        world.answers_from_session(at, j) == world.answers_per_session(at.agent as int)
            + world.answers_from_session(at, j + 1),
        0 <= world.answers_from_session(at, j + 1),
{
    let n = at.sessions@.len() - j;
    let per = world.answers_per_session(at.agent as int);
    lemma_answers_are_counted(world, at.agent + 1);
    assert(n * per == per + (n - 1) * per && 0 <= (n - 1) * per) by (nonlinear_arith)
        requires
            1 <= n,
            0 <= per,
    ;
}

proof fn lemma_left_at_session(
    world: SweepWorld,
    step: SweepStep,
    at: SessionPlace,
    found: Seq<SessionToProcess>,
)
    requires
        at.agent < world.agents <= usize::MAX,
        at.session <= at.sessions@.len(),
        turns_to_session(step, world.agents, at, found),
    ensures
        world.at_most_left(step, world.answers_from_session(at, at.session as int)),
{
    if at.session == at.sessions@.len() {
        let n = at.sessions@.len() - at.session;
        let per = world.answers_per_session(at.agent as int);
        assert(n * per == 0) by (nonlinear_arith)
            requires
                n == 0,
        ;
    }
}

proof fn lemma_left_at_stream(
    world: SweepWorld,
    step: SweepStep,
    place: StreamPlace,
    found: Seq<SessionToProcess>,
)
    requires
        world.agents <= usize::MAX,
        place.at.exists_among(world.agents),
        place.stream <= place.at.streams@.len(),
        turns_to_stream(step, world.agents, place, found),
    ensures
        world.at_most_left(step, world.answers_from_stream(place)),
{
    assert(place.at.session < place.at.sessions.len());
    if place.stream == place.at.streams@.len() {
        lemma_left_at_session(world, step, place.at.following(), found);
    }
}

/// Each answer leaves fewer to come.
proof fn lemma_fewer_left(
    world: SweepWorld,
    run: SweepRun,
    request: SweepRequest,
    reply: SweepReply,
    step: SweepStep,
)
    requires
        world.follows(run),
        run.needs(request),
        world.answers(request, reply),
        run.goes_on(reply, step),
    ensures
        1 <= world.left(run.phase()),
        world.at_most_left(step, world.left(run.phase()) - 1),
{
    let found = run.found();
    match run.phase() {
        SweepPhase::Strategy { agent } => {
            lemma_answers_are_counted(world, agent as int);
            lemma_answers_are_counted(world, agent + 1);
        },
        SweepPhase::Discovery { agent } => {
            lemma_answers_are_counted(world, agent as int);
            lemma_answers_are_counted(world, agent + 1);
        },
        SweepPhase::Streams { agent, sessions } => {
            let streams = reply->Streams_0;
            let at = SessionPlace { agent, streams, sessions, session: 0 };
            lemma_answers_are_counted(world, agent + 1);
            let n = sessions@.len() as int;
            let per = world.answers_per_session(agent as int);
            assert(0 <= n * per) by (nonlinear_arith)
                requires
                    0 <= n,
                    0 <= per,
            ;
            assert(n - 0 == n);
            lemma_left_at_session(world, step, at, found);
        },
        SweepPhase::Canonical { at } => {
            let canonical = world.canonical_path(at.current());
            lemma_session_is_counted(world, at, at.session as int);
            lemma_left_at_stream(world, step, StreamPlace { at, canonical, stream: 0 }, found);
        },
        SweepPhase::Resolve { place } => {
            lemma_left_in_stream(world, place, step, found);
        },
        SweepPhase::Exists { place, .. } => {
            lemma_left_in_stream(world, place, step, found);
        },
        SweepPhase::LookUp { place, .. } => {
            lemma_left_in_stream(world, place, step, found);
        },
        SweepPhase::Stat { place, .. } => {
            lemma_left_in_stream(world, place, step, found);
        },
    }
}

/// Leaving a stream, for the next one or the next session, leaves fewer
/// answers to come.
proof fn lemma_left_in_stream(
    world: SweepWorld,
    place: StreamPlace,
    step: SweepStep,
    found: Seq<SessionToProcess>,
)
    requires
        world.agents <= usize::MAX,
        place.exists_among(world.agents),
        world.place_agrees(place.at),
    ensures
        4 <= world.answers_from_stream(place),
        turns_to_stream(step, world.agents, place.following(), found)
            ==> world.at_most_left(step, world.answers_from_stream(place) - 4),
        keeps_session(step, world.agents, place, found)
            ==> world.at_most_left(step, world.answers_from_stream(place) - 4),
{
    let at = place.at;
    assert(place.stream < at.streams.len());
    assert(at.session < at.sessions.len());
    lemma_session_is_counted(world, at, at.session as int);
    if turns_to_stream(step, world.agents, place.following(), found) {
        lemma_left_at_stream(world, step, place.following(), found);
    }
    if keeps_session(step, world.agents, place, found) {
        lemma_left_at_session(
            world,
            step,
            at.following(),
            world.kept(at.current(), place.canonical, true, found),
        );
    }
}

/// A sweep in a world that does not change meanwhile ends after at most
/// [`SweepWorld::most_answers`] answers, and when it ends its result is the
/// outcome of that world: the sessions that need processing, agent by agent
/// and in the order in which each agent found them, or the first failure.
pub proof fn law_a_sweep_comes_to_its_outcome(
    world: SweepWorld,
    coordinator: SweepCoordinator,
    first: SweepStep,
    talk: Seq<SweepExchange>,
)
    requires
        world.agents == coordinator.agent_registry@.len(),
        turns_to_agent(first, world.agents, 0, Seq::empty()),
        world.conversation(first, talk),
    ensures
        talk.len() <= world.most_answers(0),
        step_after(first, talk, talk.len() as int) matches Step::Done(result) ==> outcome_of(result)
            == world.sweep_outcome(),
{
    assert(coordinator.agent_registry.len() == world.agents);
    lemma_answers_are_counted(world, 0);
    lemma_turns_to_agent(world, first, 0, Seq::empty());
    lemma_talk(world, first, talk, talk.len() as int);
}

proof fn lemma_talk(world: SweepWorld, first: SweepStep, talk: Seq<SweepExchange>, k: int)
    requires
        0 <= k <= talk.len(),
        world.comes_to(first, world.sweep_outcome()),
        world.at_most_left(first, world.most_answers(0)),
        0 <= world.most_answers(0),
        world.conversation(first, talk),
    ensures
        k <= world.most_answers(0),
        world.comes_to(step_after(first, talk, k), world.sweep_outcome()),
        world.at_most_left(step_after(first, talk, k), world.most_answers(0) - k),
    decreases k,
{
    if k > 0 {
        lemma_talk(world, first, talk, k - 1);
        let exchange = talk[k - 1];
        lemma_answer(world, exchange.run, exchange.request, exchange.reply, exchange.step);
        lemma_fewer_left(world, exchange.run, exchange.request, exchange.reply, exchange.step);
    }
}

/// Only agents that are swept periodically are asked for their sessions and
/// their streams.
pub proof fn law_only_periodic_agents_are_asked(
    world: SweepWorld,
    coordinator: SweepCoordinator,
    first: SweepStep,
    talk: Seq<SweepExchange>,
    k: int,
)
    requires
        world.agents == coordinator.agent_registry@.len(),
        turns_to_agent(first, world.agents, 0, Seq::empty()),
        world.conversation(first, talk),
        0 <= k < talk.len(),
    ensures
        talk[k].request matches SweepRequest::Discover { agent } ==> agent < world.agents && (
        world.periodic)(agent as int),
        talk[k].request matches SweepRequest::Streams { agent } ==> agent < world.agents && (
        world.periodic)(agent as int),
{
    assert(coordinator.agent_registry.len() == world.agents);
    lemma_answers_are_counted(world, 0);
    lemma_turns_to_agent(world, first, 0, Seq::empty());
    lemma_talk(world, first, talk, k);
    let exchange = talk[k];
    assert(step_after(first, talk, k) == SweepStep::Ask(exchange.run));
}

impl SweepWorld {
    /// Whether the session `j` of the agent is looked at: the agent is swept
    /// and found it.
    pub open spec fn looked_at(self, agent: int, j: int) -> bool {
        &&& 0 <= agent < self.agents
        &&& (self.periodic)(agent)
        &&& (self.discovered)(agent) matches Some(sessions)
        &&& 0 <= j < sessions.len()
    }

    /// The session `j` of the agent.
    pub open spec fn session(self, agent: int, j: int) -> DiscoveredSession {
        (self.discovered)(agent)->Some_0[j]
    }

    /// Whether `item` stands for the session `j` of the agent, which needs
    /// processing.
    pub open spec fn stands_for(self, item: SessionToProcess, agent: int, j: int) -> bool {
        let session = self.session(agent, j);
        &&& self.session_stale(agent, session) == Ok::<bool, TranscriptErrorView>(true)
        &&& item == session_to_process(
            session,
            self.canonical_path(session),
        )
    }
}

/// A sweep finds exactly the sessions with a stale stream, among those that
/// the swept agents found; it fails exactly where looking at one of those
/// sessions fails.
pub proof fn law_a_sweep_finds_the_stale_sessions(world: SweepWorld)
    ensures
        world.sweep_outcome() is Ok <==> forall|agent: int, j: int| #[trigger]
            world.looked_at(agent, j) ==> world.session_stale(agent, world.session(agent, j)) is Ok,
        world.sweep_outcome() matches Ok(found) ==> forall|item: SessionToProcess| #[trigger]
            found.contains(item) <==> exists|agent: int, j: int| #[trigger]
                world.looked_at(agent, j) && world.stands_for(item, agent, j),
{
    lemma_agents_found(world, 0, Seq::empty());
    if world.sweep_outcome() is Ok {
        let found = world.sweep_outcome()->Ok_0;
        assert forall|item: SessionToProcess| #[trigger] found.contains(item) implies exists|
            agent: int,
            j: int,
        | #[trigger] world.looked_at(agent, j) && world.stands_for(item, agent, j) by {
            assert(!Seq::<SessionToProcess>::empty().contains(item));
            let (agent, j) = choose|agent: int, j: int|
                0 <= agent && #[trigger] world.looked_at(agent, j) && world.stands_for(
                    item,
                    agent,
                    j,
                );
            assert(world.looked_at(agent, j));
        }
    }
}

proof fn lemma_sessions_found(
    world: SweepWorld,
    agent: int,
    sessions: Seq<DiscoveredSession>,
    j: int,
    found: Seq<SessionToProcess>,
)
    requires
        0 <= j,
        0 <= agent < world.agents,
        (world.periodic)(agent),
        (world.discovered)(agent) == Some(sessions),
    ensures
        world.with_sessions(agent, sessions, j, found) is Ok <==> forall|i: int|
            j <= i && #[trigger] world.looked_at(agent, i) ==> world.session_stale(
                agent,
                world.session(agent, i),
            ) is Ok,
        world.with_sessions(agent, sessions, j, found) matches Ok(more) ==> forall|
            item: SessionToProcess,
        | #[trigger]
            more.contains(item) <==> found.contains(item) || exists|i: int|
                j <= i && #[trigger] world.looked_at(agent, i) && world.stands_for(item, agent, i),
    decreases sessions.len() - j,
{
    if j < sessions.len() {
        assert(world.looked_at(agent, j));
        assert(world.session(agent, j) == sessions[j]);
        match world.session_stale(agent, sessions[j]) {
            Ok(stale) => {
                let canonical = world.canonical_path(sessions[j]);
                let next = world.kept(sessions[j], canonical, stale, found);
                lemma_sessions_found(world, agent, sessions, j + 1, next);
                assert forall|item: SessionToProcess| #[trigger]
                    next.contains(item) <==> found.contains(item) || world.stands_for(
                        item,
                        agent,
                        j,
                    ) by {
                    lemma_kept(world, sessions[j], canonical, stale, found, item);
                }
            },
            Err(e) => {},
        }
    }
}

proof fn lemma_kept(
    world: SweepWorld,
    session: DiscoveredSession,
    canonical: PathBuf,
    stale: bool,
    found: Seq<SessionToProcess>,
    item: SessionToProcess,
)
    ensures
        world.kept(session, canonical, stale, found).contains(item) <==> found.contains(item) || (
        stale && item == session_to_process(session, canonical)),
{
    let last = session_to_process(session, canonical);
    let pushed = found.push(last);
    assert(pushed[found.len() as int] == last);
    if found.contains(item) {
        let i = found.index_of(item);
        assert(pushed[i] == item);
    }
    if pushed.contains(item) {
        let i = pushed.index_of(item);
        if i < found.len() {
            assert(found[i] == item);
        }
    }
}

proof fn lemma_agents_found(world: SweepWorld, agent: int, found: Seq<SessionToProcess>)
    requires
        0 <= agent,
    ensures
        world.with_agents(agent, found) is Ok <==> forall|a: int, j: int|
            agent <= a && #[trigger] world.looked_at(a, j) ==> world.session_stale(
                a,
                world.session(a, j),
            ) is Ok,
        world.with_agents(agent, found) matches Ok(more) ==> forall|item: SessionToProcess|
         #[trigger]
            more.contains(item) <==> found.contains(item) || exists|a: int, j: int|
                agent <= a && #[trigger] world.looked_at(a, j) && world.stands_for(item, a, j),
    decreases world.agents - agent,
{
    if agent < world.agents {
        if (world.periodic)(agent) && (world.discovered)(agent) is Some {
            let sessions = (world.discovered)(agent)->Some_0;
            lemma_sessions_found(world, agent, sessions, 0, found);
            if world.with_sessions(agent, sessions, 0, found) is Ok {
                let more = world.with_sessions(agent, sessions, 0, found)->Ok_0;
                lemma_agents_found(world, agent + 1, more);
            }
        } else {
            lemma_agents_found(world, agent + 1, found);
        }
    }
}

/// A file is stale if it has another size than on record, be it larger or
/// smaller; with the size on record it is stale exactly if the second in which it
/// was modified is known and is not the one on record. Sizes and seconds are
/// held against the record as integers of 64 bits with a sign.
pub proof fn law_staleness(metadata: FileMetadata, existing: SessionRecord)
    ensures
        metadata.len <= i64::MAX && metadata.len > existing.last_known_size ==> file_changed(
            metadata,
            existing,
        ),
        metadata.len < existing.last_known_size ==> file_changed(metadata, existing),
        metadata.len > i64::MAX ==> (metadata.len - existing.last_known_size
            != 0x1_0000_0000_0000_0000 ==> file_changed(metadata, existing)),
        metadata.len == existing.last_known_size || metadata.len - existing.last_known_size
            == 0x1_0000_0000_0000_0000 ==> (file_changed(metadata, existing) <==> (
        match metadata.modified {
            ModifiedTime::SinceEpoch { secs } => match existing.last_modified {
                Some(then) => then != secs && secs - then != 0x1_0000_0000_0000_0000,
                None => true,
            },
            ModifiedTime::Unknown => false,
            ModifiedTime::BeforeEpoch => false,
        })),
{
}

/// What the streams from `i` on come to is what the first of them that is stale
/// or fails comes to; it is nothing where there is none.
proof fn lemma_first_stream(
    world: SweepWorld,
    agent: int,
    streams: Seq<StreamDescriptor>,
    session: DiscoveredSession,
    canonical: PathBuf,
    i: int,
)
    requires
        0 <= i,
    ensures
        ({
            let verdict = world.any_stream_stale(agent, streams, session, canonical, i);
            if verdict == Ok::<bool, TranscriptErrorView>(false) {
                forall|k: int|
                    i <= k < streams.len() ==> #[trigger] world.stream_stale(
                        agent,
                        streams,
                        session,
                        canonical,
                        k,
                    ) == Ok::<bool, TranscriptErrorView>(false)
            } else {
                exists|k: int|
                    i <= k < streams.len() && #[trigger] world.stream_stale(
                        agent,
                        streams,
                        session,
                        canonical,
                        k,
                    ) == verdict
            }
        }),
    decreases streams.len() - i,
{
    if i < streams.len() {
        let own = world.stream_stale(agent, streams, session, canonical, i);
        if own == Ok::<bool, TranscriptErrorView>(false) {
            lemma_first_stream(world, agent, streams, session, canonical, i + 1);
        }
    }
}

/// In a sweep that does not fail, a session is found if any of its streams has a
/// file that is there and is not on record, or that has another size than on
/// record, or was modified in another second; whichever agent found it, and
/// however many sessions and streams come before. It is handed on with its own
/// identifiers and the canonical path of its transcript.
pub proof fn law_a_session_with_a_changed_file_is_found(
    world: SweepWorld,
    agent: int,
    sessions: Seq<DiscoveredSession>,
    j: int,
    i: int,
    file: StreamFile,
)
    requires
        0 <= agent < world.agents,
        (world.periodic)(agent),
        (world.discovered)(agent) == Some(sessions),
        0 <= j < sessions.len(),
        0 <= i < (world.streams)(agent).len(),
        (world.resolved)(
            agent,
            i,
            match (world.canonical)(sessions[j].transcript_path) {
                Some(canonical) => canonical,
                None => sessions[j].transcript_path,
            },
        ) == Some(file),
        (world.present)(file.path),
        match (world.record)(
            if (world.streams)(agent)[i].shared {
                SessionKey::Derived { path: file.display@, tool: sessions[j].tool@ }
            } else {
                SessionKey::Given(sessions[j].session_id@)
            },
            (world.streams)(agent)[i].stream_kind@,
            file.display@,
        ) {
            Ok(None) => true,
            Ok(Some(existing)) => (world.metadata)(file.path) matches Ok(metadata) && metadata.len
                <= i64::MAX && (metadata.len != existing.last_known_size || (
            metadata.modified matches ModifiedTime::SinceEpoch { secs } && secs <= i64::MAX
                && existing.last_modified != Some(secs as i64))),
            Err(_) => false,
        },
    ensures
        world.sweep_outcome() matches Ok(found) ==> exists|k: int|
            0 <= k < found.len() && (#[trigger] found[k]).session_id == sessions[j].session_id
                && found[k].tool == sessions[j].tool && found[k].external_session_id
                == sessions[j].external_session_id && found[k].external_parent_session_id
                == sessions[j].external_parent_session_id && found[k].canonical_path == (
            match (world.canonical)(sessions[j].transcript_path) {
                Some(canonical) => canonical,
                None => sessions[j].transcript_path,
            }),
{
    let streams = (world.streams)(agent);
    let session = sessions[j];
    let canonical = world.canonical_path(session);
    lemma_first_stream(world, agent, streams, session, canonical, 0);
    assert(world.stream_stale(agent, streams, session, canonical, i) == Ok::<
        bool,
        TranscriptErrorView,
    >(true));
    law_a_sweep_finds_the_stale_sessions(world);
    if world.sweep_outcome() is Ok {
        let found = world.sweep_outcome()->Ok_0;
        let item = session_to_process(session, canonical);
        assert(world.looked_at(agent, j));
        assert(world.session(agent, j) == session);
        assert(world.session_stale(agent, session) is Ok);
        assert(world.session_stale(agent, session)->Ok_0);
        assert(world.stands_for(item, agent, j));
        assert(found.contains(item));
        let k = found.index_of(item);
        assert(found[k] == item);
    }
}

/// A sweep finds a session only where one of its streams has a file that is
/// there and is not on record, or that has another size than on record, or was
/// modified in another second; and only a session that an agent found that is
/// swept periodically.
pub proof fn law_a_found_session_has_a_changed_file(world: SweepWorld, k: int)
    requires
        world.sweep_outcome() is Ok,
        0 <= k < world.sweep_outcome()->Ok_0.len(),
    ensures
        exists|agent: int, j: int, i: int|
            #![trigger world.looked_at(agent, j), (world.streams)(agent)[i]]
            {
                &&& 0 <= agent < world.agents
                &&& (world.periodic)(agent)
                &&& (world.discovered)(agent) matches Some(sessions)
                &&& 0 <= j < sessions.len()
                &&& 0 <= i < (world.streams)(agent).len()
                &&& world.sweep_outcome()->Ok_0[k].session_id == sessions[j].session_id
                &&& (world.resolved)(
                    agent,
                    i,
                    match (world.canonical)(sessions[j].transcript_path) {
                        Some(canonical) => canonical,
                        None => sessions[j].transcript_path,
                    },
                ) matches Some(file)
                &&& (world.present)(file.path)
                &&& match (world.record)(
                    if (world.streams)(agent)[i].shared {
                        SessionKey::Derived { path: file.display@, tool: sessions[j].tool@ }
                    } else {
                        SessionKey::Given(sessions[j].session_id@)
                    },
                    (world.streams)(agent)[i].stream_kind@,
                    file.display@,
                ) {
                    Ok(None) => true,
                    Ok(Some(existing)) => (world.metadata)(file.path) matches Ok(metadata) && (
                    metadata.len != existing.last_known_size || (
                    metadata.modified matches ModifiedTime::SinceEpoch { secs } && (
                    existing.last_modified matches Some(then) ==> then != secs))),
                    Err(_) => false,
                }
            },
{
    law_a_sweep_finds_the_stale_sessions(world);
    let found = world.sweep_outcome()->Ok_0;
    let item = found[k];
    assert(found.contains(item));
    let (agent, j) = choose|agent: int, j: int| #[trigger]
        world.looked_at(agent, j) && world.stands_for(item, agent, j);
    let sessions = (world.discovered)(agent)->Some_0;
    let session = sessions[j];
    let streams = (world.streams)(agent);
    let canonical = world.canonical_path(session);
    lemma_first_stream(world, agent, streams, session, canonical, 0);
    let i = choose|i: int|
        0 <= i < streams.len() && #[trigger] world.stream_stale(
            agent,
            streams,
            session,
            canonical,
            i,
        ) == Ok::<bool, TranscriptErrorView>(true);
    assert(world.looked_at(agent, j));
    assert((world.streams)(agent)[i] == streams[i]);
}

/// A sweep that fails does so with the failure of the database to look up a
/// stream file that is there, or with that of the file system to say something of
/// one that is on record, to be tried again in five seconds.
pub proof fn law_a_sweep_fails_with_a_failure(world: SweepWorld)
    requires
        world.sweep_outcome() is Err,
    ensures
        exists|agent: int, j: int, i: int|
            #![trigger world.looked_at(agent, j), (world.streams)(agent)[i]]
            {
                &&& 0 <= agent < world.agents
                &&& (world.periodic)(agent)
                &&& (world.discovered)(agent) matches Some(sessions)
                &&& 0 <= j < sessions.len()
                &&& 0 <= i < (world.streams)(agent).len()
                &&& (world.resolved)(
                    agent,
                    i,
                    match (world.canonical)(sessions[j].transcript_path) {
                        Some(canonical) => canonical,
                        None => sessions[j].transcript_path,
                    },
                ) matches Some(file)
                &&& (world.present)(file.path)
                &&& match (world.record)(
                    if (world.streams)(agent)[i].shared {
                        SessionKey::Derived { path: file.display@, tool: sessions[j].tool@ }
                    } else {
                        SessionKey::Given(sessions[j].session_id@)
                    },
                    (world.streams)(agent)[i].stream_kind@,
                    file.display@,
                ) {
                    Ok(None) => false,
                    Ok(Some(existing)) => (world.metadata)(file.path) matches Err(message)
                        && world.sweep_outcome()->Err_0 == (TranscriptErrorView::Transient {
                        message: "failed to stat "@ + file.display@ + ": "@ + message,
                        retry_after: Wait { secs: 5, nanos: 0 },
                    }),
                    Err(e) => world.sweep_outcome()->Err_0 == e,
                }
            },
{
    let e = world.sweep_outcome()->Err_0;
    lemma_agents_fail(world, 0, Seq::empty());
    let (agent, j) = choose|agent: int, j: int| #[trigger]
        world.looked_at(agent, j) && world.session_stale(agent, world.session(agent, j)) == Err::<
            bool,
            TranscriptErrorView,
        >(e);
    let sessions = (world.discovered)(agent)->Some_0;
    let session = sessions[j];
    let streams = (world.streams)(agent);
    let canonical = world.canonical_path(session);
    lemma_first_stream(world, agent, streams, session, canonical, 0);
    let i = choose|i: int|
        0 <= i < streams.len() && #[trigger] world.stream_stale(
            agent,
            streams,
            session,
            canonical,
            i,
        ) == Err::<bool, TranscriptErrorView>(e);
    assert(world.looked_at(agent, j));
    assert((world.streams)(agent)[i] == streams[i]);
}

proof fn lemma_sessions_fail(
    world: SweepWorld,
    agent: int,
    sessions: Seq<DiscoveredSession>,
    j: int,
    found: Seq<SessionToProcess>,
)
    requires
        0 <= j,
        0 <= agent < world.agents,
        (world.periodic)(agent),
        (world.discovered)(agent) == Some(sessions),
    ensures
        world.with_sessions(agent, sessions, j, found) matches Err(e) ==> exists|i: int| #[trigger]
            world.looked_at(agent, i) && world.session_stale(agent, world.session(agent, i))
                == Err::<bool, TranscriptErrorView>(e),
    decreases sessions.len() - j,
{
    if j < sessions.len() {
        assert(world.looked_at(agent, j));
        assert(world.session(agent, j) == sessions[j]);
        if world.session_stale(agent, sessions[j]) is Ok {
            let stale = world.session_stale(agent, sessions[j])->Ok_0;
            let canonical = world.canonical_path(sessions[j]);
            lemma_sessions_fail(
                world,
                agent,
                sessions,
                j + 1,
                world.kept(sessions[j], canonical, stale, found),
            );
        }
    }
}

proof fn lemma_agents_fail(world: SweepWorld, agent: int, found: Seq<SessionToProcess>)
    requires
        0 <= agent,
    ensures
        world.with_agents(agent, found) matches Err(e) ==> exists|a: int, j: int| #[trigger]
            world.looked_at(a, j) && world.session_stale(a, world.session(a, j)) == Err::<
                bool,
                TranscriptErrorView,
            >(e),
    decreases world.agents - agent,
{
    if agent < world.agents {
        if (world.periodic)(agent) && (world.discovered)(agent) is Some {
            let sessions = (world.discovered)(agent)->Some_0;
            lemma_sessions_fail(world, agent, sessions, 0, found);
            if world.with_sessions(agent, sessions, 0, found) is Ok {
                lemma_agents_fail(
                    world,
                    agent + 1,
                    world.with_sessions(agent, sessions, 0, found)->Ok_0,
                );
            }
        } else {
            lemma_agents_fail(world, agent + 1, found);
        }
    }
}

/// Whether the session with the first pair of numbers, of its agent and among
/// the sessions of the agent, is looked at before that with the second.
pub open spec fn is_before(a: (int, int), b: (int, int)) -> bool {
    a.0 < b.0 || (a.0 == b.0 && a.1 < b.1)
}

/// Whether `places` are those of the stale sessions before `end`, in order, and
/// `found` stands for the sessions at those places.
spec fn listed_up_to(
    world: SweepWorld,
    found: Seq<SessionToProcess>,
    places: Seq<(int, int)>,
    end: (int, int),
) -> bool {
    &&& places.len() == found.len()
    &&& forall|k: int|
        #![trigger places[k]]
        0 <= k < places.len() ==> {
            &&& world.looked_at(places[k].0, places[k].1)
            &&& world.stands_for(found[k], places[k].0, places[k].1)
            &&& is_before(places[k], end)
        }
    &&& forall|k: int, l: int|
        0 <= k < l < places.len() ==> is_before(#[trigger] places[k], #[trigger] places[l])
    &&& forall|a: int, j: int| #[trigger]
        world.looked_at(a, j) && is_before((a, j), end) && world.session_stale(
            a,
            world.session(a, j),
        ) == Ok::<bool, TranscriptErrorView>(true) ==> places.contains((a, j))
}

proof fn lemma_sessions_listed(
    world: SweepWorld,
    agent: int,
    sessions: Seq<DiscoveredSession>,
    j: int,
    found: Seq<SessionToProcess>,
    places: Seq<(int, int)>,
) -> (more_places: Seq<(int, int)>)
    requires
        0 <= j <= sessions.len(),
        0 <= agent < world.agents,
        (world.periodic)(agent),
        (world.discovered)(agent) == Some(sessions),
        listed_up_to(world, found, places, (agent, j)),
    ensures
        world.with_sessions(agent, sessions, j, found) matches Ok(more) ==> listed_up_to(
            world,
            more,
            more_places,
            (agent + 1, 0),
        ),
    decreases sessions.len() - j,
{
    if j >= sessions.len() {
        assert forall|a: int, l: int| #[trigger]
            world.looked_at(a, l) && is_before((a, l), (agent + 1, 0)) && world.session_stale(
                a,
                world.session(a, l),
            ) == Ok::<bool, TranscriptErrorView>(true) implies places.contains((a, l)) by {
            assert(is_before((a, l), (agent, j)));
        }
        places
    } else if world.session_stale(agent, sessions[j]) is Ok {
        let stale = world.session_stale(agent, sessions[j])->Ok_0;
        let canonical = world.canonical_path(sessions[j]);
        let next = world.kept(sessions[j], canonical, stale, found);
        assert(world.looked_at(agent, j) && world.session(agent, j) == sessions[j]);
        let next_places = if stale {
            places.push((agent, j))
        } else {
            places
        };
        assert forall|a: int, l: int| #[trigger]
            world.looked_at(a, l) && is_before((a, l), (agent, j + 1)) && world.session_stale(
                a,
                world.session(a, l),
            ) == Ok::<bool, TranscriptErrorView>(true) implies next_places.contains((a, l)) by {
            if is_before((a, l), (agent, j)) {
                let k = places.index_of((a, l));
                assert(places.contains((a, l)));
                assert(next_places[k] == (a, l));
            } else {
                assert(next_places[places.len() as int] == (agent, j));
            }
        }
        assert(listed_up_to(world, next, next_places, (agent, j + 1)));
        lemma_sessions_listed(world, agent, sessions, j + 1, next, next_places)
    } else {
        places
    }
}

proof fn lemma_agents_listed(
    world: SweepWorld,
    agent: int,
    found: Seq<SessionToProcess>,
    places: Seq<(int, int)>,
) -> (rest: (Seq<(int, int)>, int))
    requires
        0 <= agent,
        listed_up_to(world, found, places, (agent, 0)),
    ensures
        world.with_agents(agent, found) matches Ok(more) ==> world.agents <= rest.1
            && listed_up_to(world, more, rest.0, (rest.1, 0)),
    decreases world.agents - agent,
{
    if agent >= world.agents {
        (places, agent)
    } else if (world.periodic)(agent) && (world.discovered)(agent) is Some {
        let sessions = (world.discovered)(agent)->Some_0;
        let next_places = lemma_sessions_listed(world, agent, sessions, 0, found, places);
        if world.with_sessions(agent, sessions, 0, found) is Ok {
            let more = world.with_sessions(agent, sessions, 0, found)->Ok_0;
            lemma_agents_listed(world, agent + 1, more, next_places)
        } else {
            (places, agent)
        }
    } else {
        assert forall|a: int, l: int| #[trigger]
            world.looked_at(a, l) && is_before((a, l), (agent + 1, 0)) && world.session_stale(
                a,
                world.session(a, l),
            ) == Ok::<bool, TranscriptErrorView>(true) implies places.contains((a, l)) by {
            assert(is_before((a, l), (agent, 0)));
        }
        assert(listed_up_to(world, found, places, (agent + 1, 0)));
        lemma_agents_listed(world, agent + 1, found, places)
    }
}

/// A sweep lists each stale session once, agent by agent, and of each agent in
/// the order in which it found them: `places` are the numbers of the agents and
/// of the sessions among those of the agent.
pub proof fn law_sessions_are_found_once_and_in_order(world: SweepWorld) -> (places: Seq<
    (int, int),
>)
    ensures
        world.sweep_outcome() matches Ok(found) ==> {
            &&& places.len() == found.len()
            &&& forall|k: int|
                #![trigger places[k]]
                0 <= k < places.len() ==> {
                    let (agent, j) = places[k];
                    &&& 0 <= agent < world.agents
                    &&& (world.periodic)(agent)
                    &&& (world.discovered)(agent) matches Some(sessions)
                    &&& 0 <= j < sessions.len()
                    &&& world.session_stale(agent, sessions[j]) == Ok::<bool, TranscriptErrorView>(
                        true,
                    )
                    &&& found[k].session_id == sessions[j].session_id
                    &&& found[k].tool == sessions[j].tool
                    &&& found[k].external_session_id == sessions[j].external_session_id
                    &&& found[k].external_parent_session_id
                        == sessions[j].external_parent_session_id
                    &&& found[k].canonical_path == match (world.canonical)(
                        sessions[j].transcript_path,
                    ) {
                        Some(canonical) => canonical,
                        None => sessions[j].transcript_path,
                    }
                }
            &&& forall|k: int, l: int|
                0 <= k < l < places.len() ==> (#[trigger] places[k]).0 < (#[trigger] places[l]).0
                    || (places[k].0 == places[l].0 && places[k].1 < places[l].1)
            &&& forall|agent: int, sessions: Seq<DiscoveredSession>, j: int|
                #![trigger (world.discovered)(agent), sessions[j]]
                0 <= agent < world.agents && (world.periodic)(agent) && (world.discovered)(agent)
                    == Some(sessions) && 0 <= j < sessions.len() && world.session_stale(
                    agent,
                    sessions[j],
                ) == Ok::<bool, TranscriptErrorView>(true) ==> places.contains((agent, j))
        },
{
    let (places, end) = lemma_agents_listed(world, 0, Seq::empty(), Seq::empty());
    if world.sweep_outcome() is Ok {
        assert forall|agent: int, sessions: Seq<DiscoveredSession>, j: int|
            #![trigger (world.discovered)(agent), sessions[j]]
            0 <= agent < world.agents && (world.periodic)(agent) && (world.discovered)(agent)
                == Some(sessions) && 0 <= j < sessions.len() && world.session_stale(
                agent,
                sessions[j],
            ) == Ok::<bool, TranscriptErrorView>(true) implies places.contains((agent, j)) by {
            assert(world.looked_at(agent, j));
            assert(world.session(agent, j) == sessions[j]);
        }
    }
    places
}

/// An answer that a sweep did not ask for changes nothing.
pub proof fn law_other_answers_leave_the_sweep_where_it_is(
    run: SweepRun,
    reply: SweepReply,
    step: SweepStep,
)
    requires
        run.goes_on(reply, step),
        match run.phase() {
            SweepPhase::Strategy { .. } => !(reply is Strategy),
            SweepPhase::Discovery { .. } => !(reply is Discovered),
            SweepPhase::Streams { .. } => !(reply is Streams),
            SweepPhase::Canonical { .. } => !(reply is Canonical),
            SweepPhase::Resolve { .. } => !(reply is Resolved),
            SweepPhase::Exists { .. } => !(reply is Exists),
            SweepPhase::LookUp { .. } => !(reply is Record),
            SweepPhase::Stat { .. } => !(reply is Metadata),
        },
    ensures
        step == SweepStep::Ask(run),
{
}

} // verus!
