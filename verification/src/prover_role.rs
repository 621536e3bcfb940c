//! The prover's side of a session as a state machine. The driver performs
//! each action against the engine and the network and hands back what came
//! of it; `prover_step` decides what the session does next.

use crate::config::{ServerUri, HTTPS_PORT};
use crate::error::SessionError;
use crate::planner::{
    is_received_plan, is_sent_plan, plan_received, plan_sent, received_spans, sent_secret,
};
use crate::policy::{DisclosurePolicy, PolicyView};
use crate::session::ProtocolLimits;
use rangeset::set::RangeSet;
use vstd::prelude::*;

verus! {

/// Where the prover's session stands.
#[derive(Clone, Copy, Debug, PartialEq, Eq, Structural)]
pub enum ProverState {
    /// Nothing is under way yet.
    Idle,
    /// Setting up with the verifier; once the verifier is ready, connecting
    /// to the upstream server.
    SettingUp { peer_ready: bool },
    /// Connected to the upstream server through the engine; the request is
    /// being written.
    Connected,
    /// The request is out; the response is awaited.
    RequestSent,
    /// The response has begun with a success status; the rest of the exchange
    /// and the end of the engine's background task are awaited.
    AwaitingResponse,
    /// The transcript is final; the disclosure is computed from it.
    ComputingDisclosure,
    /// The proof request is with the engine.
    Proving { sent_len: usize, received_len: usize },
    /// The session is over and the proof was made.
    Closed { sent_len: usize, received_len: usize },
    /// The session is over and failed.
    Failed { reason: SessionError },
}

/// What the driver reports.
#[derive(Debug)]
pub enum ProverEvent {
    /// The host hands over the inbound transport.
    Start,
    /// Setup with the verifier is done.
    PeerReady,
    /// The upstream server is connected and the background task runs.
    UpstreamConnected,
    /// The request is written.
    RequestWritten,
    /// The response has begun with this status code.
    Response { status: u16 },
    /// The background task has ended well: the transcript is final.
    TaskDone,
    /// The final transcript, as read from the engine.
    Transcript { sent: Vec<u8>, received: Vec<u8> },
    /// The engine has made the proof.
    Proved,
    /// The action under way has failed.
    ActionFailed,
    /// The background task has failed.
    TaskFailed,
    /// The engine reports more traffic than the protocol parameters allow.
    LimitExceeded,
    /// The session's deadline has passed.
    DeadlineExpired,
}

/// What a prover's session is run with. It is made when the session starts
/// and does not change.
#[derive(Debug)]
pub struct ProverContext {
    /// The upstream server's name: its declared identity, and the host to
    /// connect to.
    pub server_name: String,
    pub server_port: u16,
    /// The target of the one request.
    pub target: String,
    /// The value of the secret-bearing header.
    pub credential: String,
    pub limits: ProtocolLimits,
    pub policy: DisclosurePolicy,
}

/// The one request of a session.
#[derive(Debug)]
pub struct UpstreamRequest {
    pub method: String,
    pub target: String,
    /// The header fields, name and value, in the order in which they are
    /// written.
    pub headers: Vec<(String, String)>,
}

impl UpstreamRequest {
    pub open spec fn header_views(self) -> Seq<(Seq<char>, Seq<char>)> {
        self.headers@.map_values(|h: (String, String)| (h.0@, h.1@))
    }

    /// The request of a session that runs with `context`: a `GET` for the
    /// target that names the host, asks the server to close the connection
    /// and carries the credential in the header that the policy hides.
    pub open spec fn is_for(self, context: ProverContext) -> bool {
        &&& self.method@ == "GET"@
        &&& self.target@ == context.target@
        &&& self.header_views() == seq![
            ("Host"@, context.server_name@),
            ("Connection"@, "close"@),
            (context.policy.secret.name@, context.credential@),
        ]
    }
}

impl ProverContext {
    /// The context of a session about the server at `uri`. There is none
    /// unless the URI is an `https` one with a host.
    pub fn new(
        uri: &ServerUri,
        credential: &str,
        limits: ProtocolLimits,
        policy: DisclosurePolicy,
    ) -> (r: Option<ProverContext>)
        ensures
            match r {
                Some(context) => {
                    &&& uri.is_https()
                    &&& uri.host matches Some(host) && context.server_name@ == host@
                    &&& context.server_port == match uri.port {
                        Some(p) => p,
                        None => HTTPS_PORT,
                    }
                    &&& context.target@ == uri.text@
                    &&& context.credential@ == credential@
                    &&& context.limits == limits
                    &&& context.policy == policy
                },
                None => !(uri.is_https() && uri.host is Some),
            },
    {
        if !uri.uses_https() {
            return None;
        }
        match &uri.host {
            None => None,
            Some(host) => Some(
                ProverContext {
                    server_name: host.clone(),
                    server_port: uri.port_or_default(),
                    target: uri.text.clone(),
                    credential: credential.to_owned(),
                    limits,
                    policy,
                },
            ),
        }
    }

    /// The one request of the session.
    pub fn request(&self) -> (request: UpstreamRequest)
        ensures
            request.is_for(*self),
    {
        let mut headers: Vec<(String, String)> = Vec::new();
        headers.push(("Host".to_owned(), self.server_name.clone()));
        headers.push(("Connection".to_owned(), "close".to_owned()));
        headers.push((self.policy.secret.name.clone(), self.credential.clone()));
        let request = UpstreamRequest {
            method: "GET".to_owned(),
            target: self.target.clone(),
            headers,
        };
        assert(request.header_views() =~= seq![
            ("Host"@, self.server_name@),
            ("Connection"@, "close"@),
            (self.policy.secret.name@, self.credential@),
        ]);
        request
    }
}

/// What the driver is to do next.
#[derive(Debug)]
pub enum ProverAction {
    /// Hand the inbound transport to the engine's setup, with the upstream
    /// server's identity and the protocol limits.
    Setup { server_name: String, limits: ProtocolLimits },
    /// Connect to the upstream server and hand the connection to the engine;
    /// run the background task that the engine returns.
    Connect { host: String, port: u16 },
    /// Write the one request.
    SendRequest { request: UpstreamRequest },
    /// Await the beginning of the response.
    AwaitResponse,
    /// Await the end of the background task.
    AwaitTask,
    /// Read the final transcript from the engine.
    ReadTranscript,
    /// Ask the engine to prove: reveal these offsets of the sent and of the
    /// received transcript, and the upstream server's identity.
    Prove { sent: RangeSet<usize>, received: RangeSet<usize>, server_identity: bool },
    /// Close the session with the engine.
    Close,
    /// Cancel the background task and whatever is under way, and drop the
    /// session.
    Abort,
    /// Nothing: the session is over.
    Nothing,
}

impl ProverAction {
    /// What the action carries is what the step from `state` on `event`
    /// hands to the driver: the server's name and the limits for setup, host
    /// and port for the connection, the session's one request, and for the
    /// proof the planner's two sets for the final transcript, with the
    /// server's identity revealed.
    pub open spec fn fits(
        self,
        state: ProverState,
        event: ProverEvent,
        context: ProverContext,
    ) -> bool {
        match self {
            ProverAction::Setup { server_name, limits } => server_name@ == context.server_name@
                && limits == context.limits,
            ProverAction::Connect { host, port } => host@ == context.server_name@ && port
                == context.server_port,
            ProverAction::SendRequest { request } => request.is_for(context),
            ProverAction::Prove { sent, received, server_identity } => {
                &&& invokes_planner(state, event)
                &&& event matches ProverEvent::Transcript { sent: s, received: v }
                &&& is_sent_plan(s@, context.policy@, Ok(sent))
                &&& is_received_plan(v@, context.policy@, Ok(received))
                &&& server_identity
            },
            _ => true,
        }
    }
}

/// The kind of an action, without what it carries.
#[derive(Clone, Copy, Debug, PartialEq, Eq, Structural)]
pub enum ActionKind {
    Setup,
    Connect,
    SendRequest,
    AwaitResponse,
    AwaitTask,
    ReadTranscript,
    Prove,
    Close,
    Abort,
    Nothing,
}

impl ProverAction {
    pub open spec fn kind(self) -> ActionKind {
        match self {
            ProverAction::Setup { .. } => ActionKind::Setup,
            ProverAction::Connect { .. } => ActionKind::Connect,
            ProverAction::SendRequest { .. } => ActionKind::SendRequest,
            ProverAction::AwaitResponse => ActionKind::AwaitResponse,
            ProverAction::AwaitTask => ActionKind::AwaitTask,
            ProverAction::ReadTranscript => ActionKind::ReadTranscript,
            ProverAction::Prove { .. } => ActionKind::Prove,
            ProverAction::Close => ActionKind::Close,
            ProverAction::Abort => ActionKind::Abort,
            ProverAction::Nothing => ActionKind::Nothing,
        }
    }
}

impl ProverState {
    /// The session is over.
    pub open spec fn is_terminal(self) -> bool {
        self is Closed || self is Failed
    }

    /// The error of the step that is under way in this state.
    pub open spec fn step_error(self) -> SessionError {
        match self {
            ProverState::Idle => SessionError::Setup,
            ProverState::SettingUp { peer_ready } => if peer_ready {
                SessionError::Connect
            } else {
                SessionError::Setup
            },
            ProverState::Connected => SessionError::Exchange,
            ProverState::RequestSent => SessionError::Exchange,
            ProverState::AwaitingResponse => SessionError::Exchange,
            ProverState::ComputingDisclosure => SessionError::Exchange,
            ProverState::Proving { .. } => SessionError::Prove,
            ProverState::Closed { .. } => SessionError::Exchange,
            ProverState::Failed { reason } => reason,
        }
    }

    /// How far the session has come: the states in the order in which a
    /// session passes through them, the two final states last.
    pub open spec fn rank(self) -> nat {
        match self {
            ProverState::Idle => 0,
            ProverState::SettingUp { peer_ready } => if peer_ready {
                2
            } else {
                1
            },
            ProverState::Connected => 3,
            ProverState::RequestSent => 4,
            ProverState::AwaitingResponse => 5,
            ProverState::ComputingDisclosure => 6,
            ProverState::Proving { .. } => 7,
            ProverState::Closed { .. } => 8,
            ProverState::Failed { .. } => 8,
        }
    }
}

/// A status code of the 2xx class.
pub open spec fn is_success(status: u16) -> bool {
    200 <= status <= 299
}

/// The state after the planner has run on the final transcript: the proof is
/// asked for if both plans exist, else the session fails with the planner's
/// error, that of the sent side first.
pub open spec fn planned(sent: Seq<u8>, received: Seq<u8>, policy: PolicyView) -> ProverState {
    match sent_secret(sent, policy) {
        Err(e) => ProverState::Failed { reason: e },
        Ok(_) => match received_spans(received, policy) {
            Err(e) => ProverState::Failed { reason: e },
            Ok(_) => ProverState::Proving {
                sent_len: sent.len() as usize,
                received_len: received.len() as usize,
            },
        },
    }
}

/// The state that follows `state` on `event`.
///
/// A final state stays. The deadline, a failed background task, a broken
/// limit and a failed action end the session from every other state. Else
/// each state has one event that moves it on; any other event is a breach of
/// the order of the session and fails it with the error of the step under
/// way.
pub open spec fn prover_next(
    state: ProverState,
    event: ProverEvent,
    policy: PolicyView,
) -> ProverState {
    if state.is_terminal() {
        state
    } else {
        match event {
            ProverEvent::DeadlineExpired => ProverState::Failed { reason: SessionError::Timeout },
            ProverEvent::LimitExceeded => ProverState::Failed {
                reason: SessionError::ProtocolLimitExceeded,
            },
            ProverEvent::TaskFailed => ProverState::Failed { reason: SessionError::Exchange },
            ProverEvent::ActionFailed => ProverState::Failed { reason: state.step_error() },
            _ => match (state, event) {
                (ProverState::Idle, ProverEvent::Start) => ProverState::SettingUp {
                    peer_ready: false,
                },
                (
                    ProverState::SettingUp { peer_ready: false },
                    ProverEvent::PeerReady,
                ) => ProverState::SettingUp { peer_ready: true },
                (
                    ProverState::SettingUp { peer_ready: true },
                    ProverEvent::UpstreamConnected,
                ) => ProverState::Connected,
                (ProverState::Connected, ProverEvent::RequestWritten) => ProverState::RequestSent,
                (ProverState::RequestSent, ProverEvent::Response { status }) => if is_success(
                    status,
                ) {
                    ProverState::AwaitingResponse
                } else {
                    ProverState::Failed { reason: SessionError::Exchange }
                },
                (
                    ProverState::AwaitingResponse,
                    ProverEvent::TaskDone,
                ) => ProverState::ComputingDisclosure,
                (
                    ProverState::ComputingDisclosure,
                    ProverEvent::Transcript { sent, received },
                ) => planned(sent@, received@, policy),
                (
                    ProverState::Proving { sent_len, received_len },
                    ProverEvent::Proved,
                ) => ProverState::Closed { sent_len, received_len },
                _ => ProverState::Failed { reason: state.step_error() },
            },
        }
    }
}

/// The kind of action that the step from `state` on `event` asks for.
///
/// On the way forward it is the work of the state that is entered. When the
/// session ends it is `Close`, but `Abort` when the deadline has passed. A
/// session that is over asks for nothing.
pub open spec fn prover_action(
    state: ProverState,
    event: ProverEvent,
    policy: PolicyView,
) -> ActionKind {
    if state.is_terminal() {
        ActionKind::Nothing
    } else if event is DeadlineExpired {
        ActionKind::Abort
    } else {
        match prover_next(state, event, policy) {
            ProverState::Idle => ActionKind::Nothing,
            ProverState::SettingUp { peer_ready } => if peer_ready {
                ActionKind::Connect
            } else {
                ActionKind::Setup
            },
            ProverState::Connected => ActionKind::SendRequest,
            ProverState::RequestSent => ActionKind::AwaitResponse,
            ProverState::AwaitingResponse => ActionKind::AwaitTask,
            ProverState::ComputingDisclosure => ActionKind::ReadTranscript,
            ProverState::Proving { .. } => ActionKind::Prove,
            ProverState::Closed { .. } => ActionKind::Close,
            ProverState::Failed { .. } => ActionKind::Close,
        }
    }
}

/// The step from `state` on `event` runs the planner.
pub open spec fn invokes_planner(state: ProverState, event: ProverEvent) -> bool {
    state is ComputingDisclosure && event is Transcript
}

/// Whether `status` is of the 2xx class.
pub fn status_is_success(status: u16) -> (r: bool)
    ensures
        r == is_success(status),
{
    200 <= status && status <= 299
}

fn failed(reason: SessionError) -> (r: (ProverState, ProverAction))
    ensures
        r.0 == (ProverState::Failed { reason }),
        r.1 is Close,
{
    (ProverState::Failed { reason }, ProverAction::Close)
}

fn step_error_of(state: ProverState) -> (e: SessionError)
    ensures
        e == state.step_error(),
{
    match state {
        ProverState::Idle => SessionError::Setup,
        ProverState::SettingUp { peer_ready } => if peer_ready {
            SessionError::Connect
        } else {
            SessionError::Setup
        },
        ProverState::Connected => SessionError::Exchange,
        ProverState::RequestSent => SessionError::Exchange,
        ProverState::AwaitingResponse => SessionError::Exchange,
        ProverState::ComputingDisclosure => SessionError::Exchange,
        ProverState::Proving { .. } => SessionError::Prove,
        ProverState::Closed { .. } => SessionError::Exchange,
        ProverState::Failed { reason } => reason,
    }
}

/// Runs the planner on both directions of the final transcript.
fn compute_disclosure(sent: &Vec<u8>, received: &Vec<u8>, policy: &DisclosurePolicy) -> (r: (
    ProverState,
    ProverAction,
))
    ensures
        r.0 == planned(sent@, received@, policy@),
        r.1.kind() == if r.0 is Proving {
            ActionKind::Prove
        } else {
            ActionKind::Close
        },
        r.1 matches ProverAction::Prove { sent: s, received: v, server_identity } ==> is_sent_plan(
            sent@,
            policy@,
            Ok(s),
        ) && is_received_plan(received@, policy@, Ok(v)) && server_identity,
{
    let sent_set = match plan_sent(sent.as_slice(), policy) {
        Err(e) => {
            return failed(e);
        },
        Ok(set) => set,
    };
    let received_set = match plan_received(received.as_slice(), policy) {
        Err(e) => {
            return failed(e);
        },
        Ok(set) => set,
    };
    (
        ProverState::Proving { sent_len: sent.len(), received_len: received.len() },
        ProverAction::Prove { sent: sent_set, received: received_set, server_identity: true },
    )
}

/// One step of the prover's session: from where it stands and what the
/// driver reports to where it stands then and what the driver is to do.
///
/// The planner runs in the step from `ComputingDisclosure` on the final
/// transcript and in no other.
pub fn prover_step(state: ProverState, event: &ProverEvent, context: &ProverContext) -> (r: (
    ProverState,
    ProverAction,
))
    ensures
        r.0 == prover_next(state, *event, context.policy@),
        r.1.kind() == prover_action(state, *event, context.policy@),
        r.1.fits(state, *event, *context),
{
    match state {
        ProverState::Closed { .. } | ProverState::Failed { .. } => {
            return (state, ProverAction::Nothing);
        },
        _ => {},
    }
    match event {
        ProverEvent::DeadlineExpired => {
            return (ProverState::Failed { reason: SessionError::Timeout }, ProverAction::Abort);
        },
        ProverEvent::LimitExceeded => {
            return failed(SessionError::ProtocolLimitExceeded);
        },
        ProverEvent::TaskFailed => {
            return failed(SessionError::Exchange);
        },
        ProverEvent::ActionFailed => {
            return failed(step_error_of(state));
        },
        _ => {},
    }
    match (state, event) {
        (ProverState::Idle, ProverEvent::Start) => (
            ProverState::SettingUp { peer_ready: false },
            ProverAction::Setup {
                server_name: context.server_name.clone(),
                limits: context.limits,
            },
        ),
        (ProverState::SettingUp { peer_ready: false }, ProverEvent::PeerReady) => (
            ProverState::SettingUp { peer_ready: true },
            ProverAction::Connect { host: context.server_name.clone(), port: context.server_port },
        ),
        (ProverState::SettingUp { peer_ready: true }, ProverEvent::UpstreamConnected) => (
            ProverState::Connected,
            ProverAction::SendRequest { request: context.request() },
        ),
        (ProverState::Connected, ProverEvent::RequestWritten) => (
            ProverState::RequestSent,
            ProverAction::AwaitResponse,
        ),
        (ProverState::RequestSent, ProverEvent::Response { status }) => {
            if status_is_success(*status) {
                (ProverState::AwaitingResponse, ProverAction::AwaitTask)
            } else {
                failed(SessionError::Exchange)
            }
        },
        (ProverState::AwaitingResponse, ProverEvent::TaskDone) => (
            ProverState::ComputingDisclosure,
            ProverAction::ReadTranscript,
        ),
        (ProverState::ComputingDisclosure, ProverEvent::Transcript { sent, received }) => {
            compute_disclosure(sent, received, &context.policy)
        },
        (ProverState::Proving { sent_len, received_len }, ProverEvent::Proved) => (
            ProverState::Closed { sent_len, received_len },
            ProverAction::Close,
        ),
        _ => failed(step_error_of(state)),
    }
}

/// The state after the events of `events`, one after another, from `state`.
pub open spec fn prover_run(
    state: ProverState,
    events: Seq<ProverEvent>,
    policy: PolicyView,
) -> ProverState
    decreases events.len(),
{
    if events.len() == 0 {
        state
    } else {
        prover_next(prover_run(state, events.drop_last(), policy), events.last(), policy)
    }
}

/// The state in which the event `events[j]` finds a session that began in
/// `Idle`.
pub open spec fn prover_state_at(
    events: Seq<ProverEvent>,
    policy: PolicyView,
    j: int,
) -> ProverState {
    prover_run(ProverState::Idle, events.take(j), policy)
}

/// A step never moves a session back, and a session that is over stays as it
/// is and asks for nothing.
pub proof fn lemma_step_moves_forward(state: ProverState, event: ProverEvent, policy: PolicyView)
    ensures
        prover_next(state, event, policy).rank() >= state.rank(),
        state.is_terminal() ==> prover_next(state, event, policy) == state && prover_action(
            state,
            event,
            policy,
        ) == ActionKind::Nothing,
        !invokes_planner(state, event) ==> prover_action(state, event, policy) != ActionKind::Prove,
{
}

/// The state after `j + 1` events is the step from the state after `j`.
pub proof fn lemma_state_at_next(events: Seq<ProverEvent>, policy: PolicyView, j: int)
    requires
        0 <= j < events.len(),
    ensures
        prover_state_at(events, policy, j + 1) == prover_next(
            prover_state_at(events, policy, j),
            events[j],
            policy,
        ),
{
    assert(events.take(j + 1).drop_last() =~= events.take(j));
}

/// Along a session the rank never falls.
pub proof fn lemma_run_moves_forward(events: Seq<ProverEvent>, policy: PolicyView, i: int, j: int)
    requires
        0 <= i <= j <= events.len(),
    ensures
        prover_state_at(events, policy, i).rank() <= prover_state_at(events, policy, j).rank(),
    decreases j - i,
{
    if i < j {
        lemma_run_moves_forward(events, policy, i, j - 1);
        lemma_state_at_next(events, policy, j - 1);
        lemma_step_moves_forward(prover_state_at(events, policy, j - 1), events[j - 1], policy);
    }
}

/// Once a session is over, it stays in that state.
pub proof fn lemma_final_state_stays(events: Seq<ProverEvent>, policy: PolicyView, i: int, j: int)
    requires
        0 <= i <= j <= events.len(),
        prover_state_at(events, policy, i).is_terminal(),
    ensures
        prover_state_at(events, policy, j) == prover_state_at(events, policy, i),
    decreases j - i,
{
    if i < j {
        lemma_final_state_stays(events, policy, i, j - 1);
        lemma_state_at_next(events, policy, j - 1);
    }
}

/// A background task that fails before the transcript is final ends the
/// session with `Exchange`, and the planner never runs in that session:
/// neither before the failure nor after it does any step run the planner or
/// ask for a proof.
pub proof fn lemma_failed_task_never_plans(
    events: Seq<ProverEvent>,
    policy: PolicyView,
    k: int,
    j: int,
)
    requires
        0 <= k < events.len(),
        0 <= j < events.len(),
        events[k] is TaskFailed,
        prover_state_at(events, policy, k).rank() < ProverState::ComputingDisclosure.rank(),
    ensures
        prover_state_at(events, policy, k + 1) == (ProverState::Failed {
            reason: SessionError::Exchange,
        }),
        prover_run(ProverState::Idle, events, policy) == (ProverState::Failed {
            reason: SessionError::Exchange,
        }),
        !invokes_planner(prover_state_at(events, policy, j), events[j]),
        prover_action(prover_state_at(events, policy, j), events[j], policy) != ActionKind::Prove,
{
    lemma_state_at_next(events, policy, k);
    lemma_final_state_stays(events, policy, k + 1, events.len() as int);
    assert(events.take(events.len() as int) =~= events);
    if j <= k {
        lemma_run_moves_forward(events, policy, j, k);
    } else {
        lemma_final_state_stays(events, policy, k + 1, j);
    }
    lemma_step_moves_forward(prover_state_at(events, policy, j), events[j], policy);
}

/// A step from a state in which the session still runs moves it on: the
/// rank rises.
pub proof fn lemma_step_advances(state: ProverState, event: ProverEvent, policy: PolicyView)
    requires
        !state.is_terminal(),
    ensures
        prover_next(state, event, policy).rank() > state.rank(),
{
}

/// No step of a session is taken twice: whatever one step asks the driver
/// to do, no later step asks for again. So a session sets up once, connects
/// once, writes one request, awaits one response, plans once, asks for one
/// proof and is closed or aborted once.
pub proof fn lemma_no_step_twice(events: Seq<ProverEvent>, policy: PolicyView, i: int, j: int)
    requires
        0 <= i < j < events.len(),
        prover_action(prover_state_at(events, policy, i), events[i], policy) != ActionKind::Nothing,
    ensures
        prover_action(prover_state_at(events, policy, j), events[j], policy) != prover_action(
            prover_state_at(events, policy, i),
            events[i],
            policy,
        ),
{
    let at_i = prover_state_at(events, policy, i);
    let at_j = prover_state_at(events, policy, j);
    lemma_state_at_next(events, policy, i);
    lemma_state_at_next(events, policy, j);
    lemma_run_moves_forward(events, policy, i + 1, j);
    lemma_step_advances(at_i, events[i], policy);
    if prover_state_at(events, policy, i + 1).is_terminal() {
        lemma_final_state_stays(events, policy, i + 1, j);
    } else if !at_j.is_terminal() {
        lemma_step_advances(at_j, events[j], policy);
    }
}

/// A session whose deadline passes while it runs fails with `Timeout`: the
/// step asks the driver to abort, which cancels the background task, the
/// session stays failed, and no later step asks for anything.
pub proof fn lemma_deadline_ends_session(
    events: Seq<ProverEvent>,
    policy: PolicyView,
    k: int,
    j: int,
)
    requires
        0 <= k < j <= events.len(),
        events[k] is DeadlineExpired,
        !prover_state_at(events, policy, k).is_terminal(),
    ensures
        prover_action(prover_state_at(events, policy, k), events[k], policy) == ActionKind::Abort,
        prover_state_at(events, policy, j) == (ProverState::Failed {
            reason: SessionError::Timeout,
        }),
        prover_run(ProverState::Idle, events, policy) == (ProverState::Failed {
            reason: SessionError::Timeout,
        }),
        j < events.len() ==> prover_action(
            prover_state_at(events, policy, j),
            events[j],
            policy,
        ) == ActionKind::Nothing,
{
    lemma_state_at_next(events, policy, k);
    lemma_final_state_stays(events, policy, k + 1, j);
    lemma_final_state_stays(events, policy, k + 1, events.len() as int);
    assert(events.take(events.len() as int) =~= events);
}

} // verus!
