use zk_rwa_prover::config::{Config, ServerUri};
use zk_rwa_prover::error::{ParseError, SessionError};
use zk_rwa_prover::host::{prover_outcome, report, route, verifier_outcome, Endpoint, Role};
use zk_rwa_prover::policy::DisclosurePolicy;
use zk_rwa_prover::prover_role::{
    prover_step, status_is_success, ProverAction, ProverContext, ProverEvent, ProverState,
};
use zk_rwa_prover::session::{ProtocolLimits, SessionOutcome};
use zk_rwa_prover::verifier_role::{
    verifier_step, VerifierAction, VerifierContext, VerifierEvent, VerifierState,
};

const REQUEST: &[u8] =
    b"GET /api/account HTTP/1.1\r\nhost: mock-bank\r\nauthorization: Bearer random_auth_token\r\n\r\n";

const RESPONSE: &[u8] = b"HTTP/1.1 200 OK\r\nContent-Length: 89\r\n\r\n{\"organization\":\"Acme\",\"bank\":\"SwissBank\",\"accounts\":{\"USD\":\"100\",\"EUR\":\"50\",\"CHF\":\"75\"}}";

fn transcript() -> ProverEvent {
    ProverEvent::Transcript { sent: REQUEST.to_vec(), received: RESPONSE.to_vec() }
}

fn context() -> ProverContext {
    ProverContext::new(
        &ServerUri::parse("https://mock-bank:3002/api/account").unwrap(),
        "Bearer random_auth_token",
        ProtocolLimits::fixed(),
        DisclosurePolicy::bank_statement(),
    )
    .unwrap()
}

fn run(events: &[ProverEvent]) -> (ProverState, Vec<ProverAction>) {
    let context = context();
    let mut state = ProverState::Idle;
    let mut actions = Vec::new();
    for event in events {
        let (next, action) = prover_step(state, event, &context);
        state = next;
        actions.push(action);
    }
    (state, actions)
}

fn way_to(state: ProverState) -> Vec<ProverEvent> {
    let all = vec![
        ProverEvent::Start,
        ProverEvent::PeerReady,
        ProverEvent::UpstreamConnected,
        ProverEvent::RequestWritten,
        ProverEvent::Response { status: 200 },
        ProverEvent::TaskDone,
        transcript(),
        ProverEvent::Proved,
    ];
    let n = match state {
        ProverState::Idle => 0,
        ProverState::SettingUp { peer_ready: false } => 1,
        ProverState::SettingUp { peer_ready: true } => 2,
        ProverState::Connected => 3,
        ProverState::RequestSent => 4,
        ProverState::AwaitingResponse => 5,
        ProverState::ComputingDisclosure => 6,
        ProverState::Proving { .. } => 7,
        _ => 8,
    };
    all.into_iter().take(n).collect()
}

fn running_states() -> Vec<ProverState> {
    vec![
        ProverState::Idle,
        ProverState::SettingUp { peer_ready: false },
        ProverState::SettingUp { peer_ready: true },
        ProverState::Connected,
        ProverState::RequestSent,
        ProverState::AwaitingResponse,
        ProverState::ComputingDisclosure,
        ProverState::Proving { sent_len: REQUEST.len(), received_len: RESPONSE.len() },
    ]
}

#[test]
fn prover_session_runs_from_idle_to_closed() {
    let (state, actions) = run(&way_to(ProverState::Closed { sent_len: 0, received_len: 0 }));
    assert_eq!(
        state,
        ProverState::Closed { sent_len: REQUEST.len(), received_len: RESPONSE.len() }
    );
    match &actions[0] {
        ProverAction::Setup { server_name, limits } => {
            assert_eq!(server_name, "mock-bank");
            assert_eq!(*limits, ProtocolLimits { max_sent: 512, max_received: 2048 });
        }
        other => panic!("{:?}", other),
    }
    match &actions[1] {
        ProverAction::Connect { host, port } => {
            assert_eq!(host, "mock-bank");
            assert_eq!(*port, 3002);
        }
        other => panic!("{:?}", other),
    }
    match &actions[2] {
        ProverAction::SendRequest { request } => {
            assert_eq!(request.method, "GET");
            assert_eq!(request.target, "https://mock-bank:3002/api/account");
            let headers: Vec<(&str, &str)> =
                request.headers.iter().map(|(n, v)| (n.as_str(), v.as_str())).collect();
            assert_eq!(
                headers,
                vec![
                    ("Host", "mock-bank"),
                    ("Connection", "close"),
                    ("authorization", "Bearer random_auth_token"),
                ]
            );
        }
        other => panic!("{:?}", other),
    }
    assert!(matches!(actions[3], ProverAction::AwaitResponse));
    assert!(matches!(actions[4], ProverAction::AwaitTask));
    assert!(matches!(actions[5], ProverAction::ReadTranscript));
    match &actions[6] {
        ProverAction::Prove { sent, received, server_identity } => {
            assert!(*server_identity);
            assert_eq!(sent.len(), REQUEST.len() - 24);
            assert!(!sent.contains(&(REQUEST.len() - 5)));
            assert_eq!(received.len(), 21 + 18 + 11 + 10 + 10);
            assert_eq!(RESPONSE.len(), 39 + 89);
        }
        other => panic!("{:?}", other),
    }
    assert!(matches!(actions[7], ProverAction::Close));
    assert_eq!(
        prover_outcome(state),
        Some(SessionOutcome::Success { sent_len: REQUEST.len(), received_len: RESPONSE.len() })
    );
}

#[test]
fn every_running_state_is_reached_on_the_way() {
    for state in running_states() {
        assert_eq!(run(&way_to(state)).0, state);
        assert_eq!(prover_outcome(state), None);
    }
}

#[test]
fn failed_background_task_ends_the_session_without_a_plan() {
    for state in running_states() {
        let mut events = way_to(state);
        let before = events.len();
        events.push(ProverEvent::TaskFailed);
        events.push(ProverEvent::TaskDone);
        events.push(transcript());
        events.push(ProverEvent::Proved);
        let (end, actions) = run(&events);
        assert_eq!(end, ProverState::Failed { reason: SessionError::Exchange });
        assert!(matches!(actions[before], ProverAction::Close));
        for action in &actions[before + 1..] {
            assert!(matches!(action, ProverAction::Nothing));
        }
        if before < 7 {
            assert!(!actions.iter().any(|a| matches!(a, ProverAction::Prove { .. })));
        }
    }
}

#[test]
fn deadline_ends_the_session_with_timeout() {
    for state in running_states() {
        let mut events = way_to(state);
        let before = events.len();
        events.push(ProverEvent::DeadlineExpired);
        events.push(ProverEvent::Proved);
        let (end, actions) = run(&events);
        assert_eq!(end, ProverState::Failed { reason: SessionError::Timeout });
        assert!(matches!(actions[before], ProverAction::Abort));
        assert!(matches!(actions[before + 1], ProverAction::Nothing));
        assert_eq!(
            prover_outcome(end),
            Some(SessionOutcome::Failure { reason: SessionError::Timeout })
        );
    }
    assert_eq!(SessionError::Timeout.reason(), "timeout");
    assert_eq!(report(None), SessionOutcome::Failure { reason: SessionError::Timeout });
}

#[test]
fn failed_action_has_the_error_of_its_step() {
    let expected = [
        SessionError::Setup,
        SessionError::Setup,
        SessionError::Connect,
        SessionError::Exchange,
        SessionError::Exchange,
        SessionError::Exchange,
        SessionError::Exchange,
        SessionError::Prove,
    ];
    for (state, error) in running_states().into_iter().zip(expected) {
        let mut events = way_to(state);
        events.push(ProverEvent::ActionFailed);
        let (end, actions) = run(&events);
        assert_eq!(end, ProverState::Failed { reason: error });
        assert!(matches!(actions.last(), Some(ProverAction::Close)));
    }
    let mut events = way_to(ProverState::Connected);
    events.push(ProverEvent::LimitExceeded);
    assert_eq!(run(&events).0, ProverState::Failed { reason: SessionError::ProtocolLimitExceeded });
}

#[test]
fn event_out_of_order_fails_the_session() {
    let (end, _) = run(&[ProverEvent::Start, ProverEvent::UpstreamConnected]);
    assert_eq!(end, ProverState::Failed { reason: SessionError::Setup });
    let (end, _) = run(&[transcript()]);
    assert_eq!(end, ProverState::Failed { reason: SessionError::Setup });
    let mut events = way_to(ProverState::RequestSent);
    events.push(ProverEvent::TaskDone);
    assert_eq!(run(&events).0, ProverState::Failed { reason: SessionError::Exchange });
}

#[test]
fn response_without_success_fails_the_exchange() {
    for status in [100, 199, 300, 404, 500] {
        let mut events = way_to(ProverState::RequestSent);
        events.push(ProverEvent::Response { status });
        assert_eq!(run(&events).0, ProverState::Failed { reason: SessionError::Exchange });
        assert!(!status_is_success(status));
    }
    for status in [200, 204, 299] {
        let mut events = way_to(ProverState::RequestSent);
        events.push(ProverEvent::Response { status });
        assert_eq!(run(&events).0, ProverState::AwaitingResponse);
        assert!(status_is_success(status));
    }
}

#[test]
fn unsatisfiable_plan_fails_the_session() {
    let mut events = way_to(ProverState::ComputingDisclosure);
    events.push(ProverEvent::Transcript {
        sent: REQUEST.to_vec(),
        received: b"HTTP/1.1 200 OK\r\n\r\n{\"organization\":\"Acme\"}".to_vec(),
    });
    let (end, actions) = run(&events);
    assert_eq!(end, ProverState::Failed { reason: SessionError::PlanUnsatisfiable });
    assert!(matches!(actions.last(), Some(ProverAction::Close)));
    let mut events = way_to(ProverState::ComputingDisclosure);
    events.push(ProverEvent::Transcript { sent: b"nonsense".to_vec(), received: RESPONSE.to_vec() });
    assert_eq!(
        run(&events).0,
        ProverState::Failed { reason: SessionError::Parse(ParseError::MalformedHttp) }
    );
    let mut events = way_to(ProverState::ComputingDisclosure);
    events.push(ProverEvent::Transcript { sent: Vec::new(), received: RESPONSE.to_vec() });
    assert_eq!(run(&events).0, ProverState::Failed { reason: SessionError::PlanUnsatisfiable });
}

fn expecting() -> VerifierContext {
    VerifierContext::new("mock-bank".to_string(), ProtocolLimits::fixed())
}

fn verify(events: &[VerifierEvent]) -> (VerifierState, Vec<VerifierAction>) {
    let context = expecting();
    let mut state = VerifierState::Idle;
    let mut actions = Vec::new();
    for event in events {
        let (next, action) = verifier_step(state, event, &context);
        state = next;
        actions.push(action);
    }
    (state, actions)
}

fn verified(name: &str) -> VerifierEvent {
    VerifierEvent::Verified {
        server_name: name.to_string(),
        sent: vec![0; 7],
        received: vec![0; 11],
    }
}

#[test]
fn verifier_accepts_a_proof_about_the_expected_server() {
    let (end, actions) = verify(&[
        VerifierEvent::Start,
        VerifierEvent::PeerReady,
        VerifierEvent::ProofReceived,
        verified("mock-bank"),
        VerifierEvent::Start,
    ]);
    assert_eq!(end, VerifierState::Closed { sent_len: 7, received_len: 11 });
    assert_eq!(
        actions,
        vec![
            VerifierAction::Setup { limits: ProtocolLimits::fixed() },
            VerifierAction::AwaitProof,
            VerifierAction::Verify,
            VerifierAction::Close,
            VerifierAction::Nothing,
        ]
    );
    assert_eq!(
        verifier_outcome(end),
        Some(SessionOutcome::Success { sent_len: 7, received_len: 11 })
    );
}

#[test]
fn verifier_rejects_a_proof_about_another_server() {
    for name in ["other-bank", "Mock-Bank", "mock-bank.", ""] {
        let (end, actions) = verify(&[
            VerifierEvent::Start,
            VerifierEvent::PeerReady,
            VerifierEvent::ProofReceived,
            verified(name),
        ]);
        assert_eq!(end, VerifierState::Failed { reason: SessionError::Verify });
        assert_eq!(actions[3], VerifierAction::Close);
    }
}

#[test]
fn verifier_fails_with_the_error_of_its_step() {
    let way = [VerifierEvent::Start, VerifierEvent::PeerReady, VerifierEvent::ProofReceived];
    let errors =
        [SessionError::Setup, SessionError::Setup, SessionError::Exchange, SessionError::Verify];
    for (n, error) in errors.into_iter().enumerate() {
        let context = expecting();
        let mut state = VerifierState::Idle;
        for event in &way[..n] {
            state = verifier_step(state, event, &context).0;
        }
        assert_eq!(verifier_outcome(state), None);
        assert_eq!(
            verifier_step(state, &VerifierEvent::ActionFailed, &context),
            (VerifierState::Failed { reason: error }, VerifierAction::Close)
        );
        assert_eq!(
            verifier_step(state, &VerifierEvent::DeadlineExpired, &context),
            (VerifierState::Failed { reason: SessionError::Timeout }, VerifierAction::Abort)
        );
        assert_eq!(
            verifier_step(state, &VerifierEvent::LimitExceeded, &context),
            (
                VerifierState::Failed { reason: SessionError::ProtocolLimitExceeded },
                VerifierAction::Close
            )
        );
    }
    assert_eq!(
        verify(&[VerifierEvent::Start, verified("mock-bank")]).0,
        VerifierState::Failed { reason: SessionError::Setup }
    );
}

#[test]
fn host_routes_the_three_endpoints() {
    assert_eq!(route("/prove"), Some(Endpoint::Session(Role::Prover)));
    assert_eq!(route("/verify"), Some(Endpoint::Session(Role::Verifier)));
    assert_eq!(route("/health"), Some(Endpoint::Health));
    assert_eq!(route("/"), None);
    assert_eq!(route("/prove/"), None);
    assert_eq!(route("/Prove"), None);
    assert_eq!(route(""), None);
}

#[test]
fn host_reports_the_outcome_of_a_session() {
    let success = SessionOutcome::Success { sent_len: 1, received_len: 2 };
    assert_eq!(report(Some(success)), success);
    let failure = SessionOutcome::Failure { reason: SessionError::Prove };
    assert_eq!(report(Some(failure)), failure);
    assert_eq!(report(None), SessionOutcome::Failure { reason: SessionError::Timeout });
}

#[test]
fn every_error_has_its_words() {
    let all = [
        (SessionError::Setup, "setup failed"),
        (SessionError::Connect, "connect failed"),
        (SessionError::Exchange, "exchange failed"),
        (SessionError::Parse(ParseError::MalformedHttp), "malformed HTTP message"),
        (SessionError::Parse(ParseError::MalformedJson), "malformed JSON document"),
        (SessionError::Parse(ParseError::MissingHeader), "header not found"),
        (SessionError::Parse(ParseError::MissingField), "field not found"),
        (SessionError::PlanUnsatisfiable, "disclosure plan unsatisfiable"),
        (SessionError::Prove, "proving failed"),
        (SessionError::Verify, "verification failed"),
        (SessionError::Timeout, "timeout"),
        (SessionError::ProtocolLimitExceeded, "protocol limit exceeded"),
    ];
    for (error, words) in all {
        assert_eq!(error.reason(), words);
    }
}

#[test]
fn limits_are_the_fixed_ones() {
    assert_eq!(ProtocolLimits::fixed(), ProtocolLimits { max_sent: 512, max_received: 2048 });
}

#[test]
fn config_defaults() {
    let config = Config::from_env(None, None, None, None).unwrap();
    assert_eq!(config.ws_host, "0.0.0.0");
    assert_eq!(config.ws_port, 9816);
    assert_eq!(config.wstcp_proxy_port, 55688);
    assert_eq!(config.session_timeout_secs, 120);
    assert_eq!(config.server_uri.text, "https://mock-bank:3002/api/account");
    assert_eq!(config.server_domain(), "mock-bank");
    assert_eq!(config.server_port(), 3002);
    assert!(config.server_uri.uses_https());
    assert_eq!(config.server_uri.expected_domain(), "mock-bank");
}

#[test]
fn config_reads_the_settings() {
    let config = Config::from_env(
        Some("8080"),
        Some("+9000"),
        Some("30"),
        Some("https://swissbank.tlsnotary.org/balances"),
    )
    .unwrap();
    assert_eq!(config.ws_port, 8080);
    assert_eq!(config.wstcp_proxy_port, 9000);
    assert_eq!(config.session_timeout_secs, 30);
    assert_eq!(config.server_domain(), "swissbank.tlsnotary.org");
    assert_eq!(config.server_port(), 443);
}

#[test]
fn config_falls_back_on_settings_that_are_no_numbers() {
    for bad in ["", "+", "-1", "65536", "80a", " 80", "0x50", "99999999999999999999999"] {
        let config = Config::from_env(Some(bad), Some(bad), None, None).unwrap();
        assert_eq!(config.ws_port, 9816, "{:?}", bad);
        assert_eq!(config.wstcp_proxy_port, 55688, "{:?}", bad);
        assert_eq!(bad.parse::<u16>().ok(), None);
    }
    for (text, value) in [("0", 0u16), ("65535", 65535), ("007", 7), ("+443", 443)] {
        let config = Config::from_env(Some(text), None, None, None).unwrap();
        assert_eq!(config.ws_port, value);
        assert_eq!(text.parse::<u16>().ok(), Some(value));
    }
    let config = Config::from_env(None, None, Some("18446744073709551615"), None).unwrap();
    assert_eq!(config.session_timeout_secs, u64::MAX);
    let config = Config::from_env(None, None, Some("18446744073709551616"), None).unwrap();
    assert_eq!(config.session_timeout_secs, 120);
}

#[test]
fn config_needs_an_upstream_uri() {
    assert!(Config::from_env(None, None, None, Some("not a uri")).is_none());
    assert!(Config::from_env(None, None, None, Some("")).is_none());
}

#[test]
fn server_uri_parts() {
    let uri = ServerUri::parse("http://example.org:8080/x?y=1").unwrap();
    assert_eq!(uri.scheme.as_deref(), Some("http"));
    assert_eq!(uri.host.as_deref(), Some("example.org"));
    assert_eq!(uri.port, Some(8080));
    assert!(!uri.uses_https());
    assert_eq!(uri.port_or_default(), 8080);
    let uri = ServerUri::parse("/only/a/path").unwrap();
    assert_eq!(uri.scheme, None);
    assert_eq!(uri.host, None);
    assert_eq!(uri.port, None);
    assert_eq!(uri.port_or_default(), 443);
    assert_eq!(uri.expected_domain(), "unknown");
    assert!(ServerUri::parse("https://exa mple.org/").is_none());
}

#[test]
fn prover_context_needs_https_and_a_host() {
    let limits = ProtocolLimits::fixed();
    for text in ["http://mock-bank/api", "/api/account", "mock-bank:3002"] {
        let uri = ServerUri::parse(text).unwrap();
        assert!(
            ProverContext::new(&uri, "t", limits, DisclosurePolicy::bank_statement()).is_none(),
            "{:?}",
            text
        );
    }
    let uri = ServerUri::parse("https://swissbank.tlsnotary.org/balances").unwrap();
    let context = ProverContext::new(&uri, "t", limits, DisclosurePolicy::bank_statement()).unwrap();
    assert_eq!(context.server_name, "swissbank.tlsnotary.org");
    assert_eq!(context.server_port, 443);
    assert_eq!(context.target, "https://swissbank.tlsnotary.org/balances");
    assert_eq!(context.credential, "t");
}
