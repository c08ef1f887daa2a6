//! Local networks: which nodes there are, how they are set up, and how their events are awaited.

use eip8025::execution_proof::ExecutionProof;
use eip8025::hash::Hash256;
use eip8025::simulator::builder::{
    ChainSpec, EnvironmentBuilder, LevelFilter, LoggerConfig, TestNetworkFixtureBuilder,
    ValidatorNodes, RESTRICTED_FILE_MODE, SHARED_FILE_MODE,
};
use eip8025::simulator::events::{
    collect_pending, BeaconNodeEvent, ProofEngineEvent, ProofRequestCounter, Received, Source,
    SubscriptionCache,
};
use eip8025::simulator::local_network::{
    boot_node_enr, default_client_config, duration_to_genesis, genesis_time, node_url, EnrStep,
    ForkSchedule, LocalNetwork, LocalNetworkParams, NodeType, ENR_ATTEMPTS, TERMINAL_BLOCK,
};
use eip8025::testing::mock_server::ProofRequestRecord;

fn spec() -> ChainSpec {
    ChainSpec {
        seconds_per_slot: 6,
        slot_duration_ms: 6000,
        min_genesis_time: 1,
        genesis_delay: 300,
        min_genesis_active_validator_count: 64,
        data_column_sidecar_subnet_count: 128,
        number_of_custody_groups: 128,
        altair_fork_epoch: None,
        bellatrix_fork_epoch: None,
        capella_fork_epoch: None,
        deneb_fork_epoch: None,
        electra_fork_epoch: None,
        fulu_fork_epoch: None,
    }
}

fn logger() -> LoggerConfig {
    LoggerConfig {
        path: None,
        debug_level: LevelFilter::INFO,
        logfile_debug_level: LevelFilter::DEBUG,
        is_restricted: true,
    }
}

fn builder() -> TestNetworkFixtureBuilder {
    TestNetworkFixtureBuilder::new(EnvironmentBuilder { spec: spec() }, logger())
}

fn params() -> LocalNetworkParams {
    LocalNetworkParams {
        validator_count: 12,
        node_count: 2,
        proposer_nodes: 1,
        proof_generator_nodes: 1,
        proof_verifier_nodes: 2,
        extra_nodes: 1,
        delayed_nodes: 1,
        genesis_delay: 20,
    }
}

fn record() -> ProofRequestRecord {
    ProofRequestRecord {
        proof_gen_id: [0; 8],
        new_payload_request_root: Hash256::repeat_byte(1),
        proof_types: vec![1],
        timestamp: 0,
    }
}

fn requested() -> ProofEngineEvent {
    ProofEngineEvent::ProofRequestReceived { record: record() }
}

fn sent() -> ProofEngineEvent {
    ProofEngineEvent::ProofSentToValidator { execution_proof: ExecutionProof::default() }
}

#[test]
fn kinds_of_nodes() {
    assert!(NodeType::Proposer.is_proposer());
    assert!(!NodeType::Default.is_proposer());
    assert!(NodeType::ProofVerifier.is_proof_verifier());
    assert!(NodeType::ProofGenerator.is_proof_generator());
    for kind in [NodeType::ProofVerifier, NodeType::ProofGenerator] {
        assert!(kind.requires_proof_node());
    }
    for kind in [NodeType::Default, NodeType::Proposer] {
        assert!(!kind.requires_proof_node());
        assert!(kind.requires_execution_node());
    }
    assert!(NodeType::ProofGenerator.requires_execution_node());
    assert!(!NodeType::ProofVerifier.requires_execution_node());
}

#[test]
fn nodes_come_in_the_order_of_their_kinds() {
    let expected = vec![
        NodeType::Default,
        NodeType::Default,
        NodeType::Proposer,
        NodeType::ProofGenerator,
        NodeType::ProofVerifier,
        NodeType::ProofVerifier,
    ];
    assert_eq!(params().init_beacon_nodes(), expected);
    for (i, kind) in expected.iter().enumerate() {
        assert_eq!(params().node_type(i), *kind);
    }
}

#[test]
fn settings_of_a_client() {
    let config = default_client_config(&params(), 1000);
    assert_eq!(config.validator_count, 12);
    assert_eq!(config.genesis_time, 1000);
    assert_eq!(config.target_peers, 7);
    assert!(config.enable_light_client_server);
    assert!(!config.enable_packet_filter);
    assert!(!config.optimistic_finalized_sync);
    assert_eq!(TERMINAL_BLOCK, 0);
}

#[test]
fn forks_of_the_execution_layer() {
    let schedule = ForkSchedule {
        seconds_per_slot: 6,
        slots_per_epoch: 8,
        capella_fork_epoch: Some(0),
        deneb_fork_epoch: Some(1),
        electra_fork_epoch: Some(3),
        fulu_fork_epoch: None,
    };
    let config = schedule.default_mock_execution_config(1000);
    assert_eq!(config.shanghai_time, Some(1000));
    assert_eq!(config.cancun_time, Some(1048));
    assert_eq!(config.prague_time, Some(1144));
    assert_eq!(config.osaka_time, None);
}

#[test]
fn nodes_are_planned_and_added() {
    let mut network = LocalNetwork::new();
    // The first node is the boot node, whatever its kind.
    let boot = network.add_beacon_node(NodeType::Default);
    assert!(boot.boot_node && boot.execution_node && boot.proof_engine.is_none());
    let proposer = network.add_beacon_node(NodeType::Proposer);
    assert!(!proposer.boot_node && proposer.proposer_only && proposer.execution_node);
    assert_eq!(network.beacon_node_count(), 1);
    assert_eq!(network.proposer_node_count(), 1);
    let generator = network.add_beacon_node(NodeType::ProofGenerator);
    assert_eq!(generator.proof_engine.as_deref(), Some("http://mock/1/"));
    assert_eq!(generator.optimistic_finalized_sync, None);
    let verifier = network.add_beacon_node(NodeType::ProofVerifier);
    assert_eq!(verifier.proof_engine.as_deref(), Some("http://mock/2/"));
    assert!(!verifier.execution_node);
    assert_eq!(verifier.optimistic_finalized_sync, Some(true));
    assert_eq!(network.beacon_node_count(), 3);

    let first = network.add_validator_client(0, NodeType::Default).unwrap();
    assert_eq!(first.proposer_node, Some(0));
    let second = network.add_validator_client(1, NodeType::ProofGenerator).unwrap();
    assert_eq!(second.proposer_node, None);
    assert!(second.proof_generator);
    assert_eq!(second.proof_engine.as_deref(), Some("http://mock/1/"));
    assert!(!first.proof_generator);
    assert_eq!(first.proof_engine, None);
    assert_eq!(
        network.add_validator_client(3, NodeType::Default).unwrap_err(),
        "No beacon node for index 3"
    );
    assert_eq!(network.add_validator_client_with_fallbacks(&vec![0, 2]), Ok(()));
    assert_eq!(
        network.add_validator_client_with_fallbacks(&vec![0, 5, 9]),
        Err("No beacon node for index 5".to_string())
    );
    assert_eq!(network.validator_client_count(), 3);
}

#[test]
fn boot_node_is_asked_for_its_ports() {
    assert!(matches!(boot_node_enr(0, Some((Some(9000), Some(9001)))), EnrStep::Ready));
    for ports in [
        None,
        Some((None, Some(9001))),
        Some((Some(9000), None)),
        Some((Some(0), Some(9001))),
        Some((Some(9000), Some(0))),
    ] {
        assert!(matches!(boot_node_enr(99, ports), EnrStep::Wait(100)));
    }
    assert_eq!(ENR_ATTEMPTS, 100);
    assert!(matches!(
        boot_node_enr(100, Some((Some(9000), Some(9001)))),
        EnrStep::Failed(text)
        if text == "Boot node ENR did not get valid TCP and UDP ports within 10 seconds"
    ));
}

#[test]
fn times_until_genesis() {
    assert_eq!(genesis_time(500, 38), 538);
    assert_eq!(duration_to_genesis(538, 500), Ok(38));
    assert_eq!(duration_to_genesis(538, 538), Ok(0));
    assert!(duration_to_genesis(538, 539)
        .unwrap_err()
        .starts_with("The genesis time has already passed since all nodes started."));
    assert_eq!(node_url("127.0.0.1", 5052), "http://127.0.0.1:5052");
}

#[test]
fn builder_starts_with_two_plain_nodes() {
    let built = builder();
    assert_eq!(built.network_params.node_count, 2);
    assert_eq!(built.network_params.validator_count, 4);
    assert_eq!(built.network_params.genesis_delay, 38);
    assert_eq!(built.network_params.init_beacon_nodes(), vec![NodeType::Default; 2]);
    assert!(!built.disable_stdout);
}

#[test]
fn builder_changes_what_it_is_told() {
    let built = builder()
        .map_network_params(|params| {
            params.genesis_delay = 20;
        })
        .map_spec(|spec| {
            spec.seconds_per_slot = 1;
            spec.fulu_fork_epoch = Some(2);
        })
        .map_env(|env| {
            env.spec.min_genesis_time = 0;
        })
        .with_log_level(LevelFilter::TRACE)
        .with_log_dir("proof-engine".to_string())
        .map_logger_config(|config| {
            config.is_restricted = false;
        });
    assert_eq!(built.network_params.genesis_delay, 20);
    assert_eq!(built.network_params.node_count, 2);
    assert_eq!(built.logger_config.debug_level, LevelFilter::TRACE);
    assert_eq!(built.logger_config.logfile_debug_level, LevelFilter::TRACE);
    assert_eq!(built.logger_config.path.as_deref(), Some("proof-engine"));
    let init = built.init_network();
    assert_eq!(init.env.spec.seconds_per_slot, 1);
    assert_eq!(init.env.spec.fulu_fork_epoch, Some(2));
    assert_eq!(init.env.spec.min_genesis_time, 0);
    assert_eq!(init.env.spec.genesis_delay, 20);
    assert_eq!(init.env.spec.min_genesis_active_validator_count, 4);
    assert_eq!(init.file_mode, SHARED_FILE_MODE);
    assert!(init.stdout);
    assert_eq!(SHARED_FILE_MODE, 0o644);
}

#[test]
fn builder_takes_whole_parts() {
    let env = EnvironmentBuilder { spec: ChainSpec { seconds_per_slot: 2, ..spec() } };
    let init = builder().with_env(env).with_network_params(params()).init_network();
    assert_eq!(init.env.spec.seconds_per_slot, 2);
    assert_eq!(init.network_params.proof_verifier_nodes, 2);
    assert_eq!(init.env.spec.min_genesis_active_validator_count, 12);
    assert_eq!(init.file_mode, RESTRICTED_FILE_MODE);
    assert_eq!(RESTRICTED_FILE_MODE, 0o600);
}

#[test]
fn validators_are_shared_out() {
    let setups = LocalNetworkParams {
        validator_count: 13,
        node_count: 5,
        proposer_nodes: 0,
        proof_generator_nodes: 1,
        proof_verifier_nodes: 0,
        extra_nodes: 0,
        delayed_nodes: 0,
        genesis_delay: 0,
    }
    .init_validators();
    assert_eq!(setups.len(), 6);
    let mut seen = Vec::new();
    for setup in &setups {
        assert_eq!(setup.indices().len(), 2);
        seen.extend(setup.indices());
    }
    assert_eq!(seen, (0..12).collect::<Vec<usize>>());
    assert!(matches!(
        setups[0].nodes,
        ValidatorNodes::WithFallback { beacon_node: 0, fallback: 1 }
    ));
    assert!(matches!(
        setups[4].nodes,
        ValidatorNodes::WithFallback { beacon_node: 4, fallback: 0 }
    ));
    assert!(matches!(
        setups[5].nodes,
        ValidatorNodes::Single { beacon_node: 5, node_type: NodeType::ProofGenerator }
    ));
    assert!(matches!(
        setups[1].nodes,
        ValidatorNodes::Single { beacon_node: 1, node_type: NodeType::Default }
    ));
}

#[test]
fn test_subscription_cache_creation() {
    let _cache: SubscriptionCache<u8> = SubscriptionCache::new();
}

#[test]
fn test_lazy_subscription() {
    let mut cache = SubscriptionCache::new();
    // The first use subscribes.
    assert_eq!(*cache.subscribe_to_node(0, || "first"), "first");
    // The second use of the same node does not.
    assert_eq!(*cache.subscribe_to_node(0, || unreachable!()), "first");
    assert_eq!(*cache.subscribe_to_node(1, || "other"), "other");
    assert_eq!(*cache.subscribe_to_node(0, || unreachable!()), "first");
}

#[test]
fn test_clear_subscriptions() {
    let mut cache = SubscriptionCache::new();
    let _ = cache.subscribe_to_node(0, || "a");
    let _ = cache.subscribe_to_node(1, || "b");
    cache.clear();
    assert_eq!(*cache.subscribe_to_node(0, || "c"), "c");
    assert_eq!(*cache.subscribe_to_node(1, || "d"), "d");
}

#[test]
fn test_clear_for_specific_node() {
    let mut cache = SubscriptionCache::new();
    let _ = cache.subscribe_to_node(0, || "a");
    let _ = cache.subscribe_to_node(1, || "b");
    cache.clear_for_node(0);
    assert_eq!(*cache.subscribe_to_node(0, || "c"), "c");
    assert_eq!(*cache.subscribe_to_node(1, || unreachable!()), "b");
}

#[test]
fn test_beacon_node_event_subscription_recv_timeout() {
    let told = Source::BeaconNode.recv::<BeaconNodeEvent>(Received::TimedOut);
    assert_eq!(told.unwrap_err(), "Timeout waiting for event");
}

#[test]
fn test_beacon_node_event_subscription_wait_for() {
    let event = BeaconNodeEvent::Head { slot: 1 };
    let told = Source::BeaconNode.recv(Received::Event(event));
    let matched = event.reaches_slot(1);
    assert!(matches!(
        Source::BeaconNode.wait_for(told, matched),
        Ok(Some(BeaconNodeEvent::Head { slot: 1 }))
    ));
}

#[test]
fn test_beacon_node_event_subscription_wait_for_timeout() {
    let told = Source::BeaconNode.recv::<BeaconNodeEvent>(Received::TimedOut);
    assert!(Source::BeaconNode.wait_for(told, false).is_err());
    assert_eq!(Source::BeaconNode.remaining(50, 20), Ok(30));
    assert_eq!(
        Source::BeaconNode.remaining(50, 50),
        Err("Timeout waiting for matching event".to_string())
    );
    assert_eq!(
        Source::ProofEngine.remaining(50, 51),
        Err("Timeout waiting for matching proof engine event".to_string())
    );
}

#[test]
fn test_wait_for_slot_helper() {
    for event in [
        BeaconNodeEvent::Head { slot: 4 },
        BeaconNodeEvent::Block { slot: 5 },
        BeaconNodeEvent::Other,
    ] {
        let told = Source::BeaconNode.recv(Received::Event(event));
        assert!(matches!(Source::BeaconNode.wait_for(told, event.reaches_slot(5)), Ok(None)));
    }
    assert!(BeaconNodeEvent::Head { slot: 5 }.reaches_slot(5));
    assert!(BeaconNodeEvent::Head { slot: 5 }.is_head());
    assert!(BeaconNodeEvent::Block { slot: 5 }.is_block());
    assert!(!BeaconNodeEvent::Other.is_head());
}

#[test]
fn test_wait_for_finalization_helper() {
    assert!(BeaconNodeEvent::FinalizedCheckpoint { epoch: 10 }.finalizes(10));
    assert!(!BeaconNodeEvent::FinalizedCheckpoint { epoch: 9 }.finalizes(10));
    assert!(!BeaconNodeEvent::Head { slot: 10 }.finalizes(10));
}

#[test]
fn lost_events_and_closed_channels() {
    let lagged = Source::BeaconNode.recv::<BeaconNodeEvent>(Received::Lagged(3));
    assert_eq!(lagged.unwrap_err(), "Event subscription lagged by 3 events");
    let lagged = Source::ProofEngine.recv::<ProofEngineEvent>(Received::Lagged(12));
    assert_eq!(lagged.unwrap_err(), "Proof engine event subscription lagged by 12 events");
    for received in [Received::Empty, Received::Closed] {
        assert!(matches!(Source::BeaconNode.recv::<BeaconNodeEvent>(received), Ok(None)));
    }
    assert_eq!(
        Source::ProofEngine.wait_for::<ProofEngineEvent>(Ok(None), true).unwrap_err(),
        "Channel closed while waiting for proof engine event"
    );
}

#[test]
fn events_of_a_proof_engine() {
    assert!(requested().proof_request().is_some());
    assert!(requested().proof_sent().is_none());
    assert!(sent().proof_request().is_none());
    assert_eq!(sent().proof_sent(), Some(ExecutionProof::default()));
    let told = vec![Ok(Some(requested())), Ok(Some(sent())), Ok(None), Ok(Some(sent()))];
    assert_eq!(collect_pending(told).len(), 2);
    assert!(collect_pending(vec![Err("lagged".to_string())]).is_empty());
}

#[test]
fn requests_are_counted_until_the_time_is_over() {
    let mut counter = ProofRequestCounter::new();
    counter.on_told(&Ok(Some(requested())));
    counter.on_told(&Ok(Some(sent())));
    counter.on_told(&Ok(None));
    assert!(counter.drained && !counter.done);
    counter.on_told(&Ok(Some(requested())));
    assert_eq!(counter.count, 2);
    counter.on_timeout();
    assert!(counter.done);
    let mut closed = ProofRequestCounter::new();
    closed.on_told(&Err("lagged".to_string()));
    closed.on_told(&Ok(None));
    assert!(closed.done);
    assert_eq!(closed.count, 0);
}
