use protocol::block_dag::{BlockDAG, DagError};
use protocol::block_factory::BlockFactory;
use protocol::inbox::Inbox;
use protocol::tip_selection::TipSelection;
use protocol::block_storage::BlockStorage;
use protocol::config::{Config, ProtocolParams, ProtocolPlugins, ValidatorConfigParams};
use protocol::consensus::Consensus;
use protocol::consensus_round::ConsensusRound;
use protocol::error::ProtocolError;
use protocol::plugin::{short_type_name, Plugin};
use protocol::plugins::{dependencies, PluginKind, Plugins};
use protocol::protocol::Protocol;
use protocol::types::{Block, Committee, Member, GENESIS_ID};
use protocol::vote::{Issuer, Vote, VotingError};

#[test]
fn plugin_names_are_short_type_names() {
    assert_eq!(short_type_name("a::b::Consensus<x::Config>"), "Consensus");
    assert_eq!(short_type_name("Plain"), "Plain");
    assert_eq!(short_type_name("m::Outer<n::Inner<k::V>>"), "Outer");
    assert_eq!(short_type_name(""), "");
    assert_eq!(BlockStorage::new().plugin_name(), "BlockStorage");
    assert_eq!(BlockDAG::new().plugin_name(), "BlockDAG");
    assert_eq!(Consensus::new().plugin_name(), "Consensus");
    assert_eq!(ConsensusRound::new().plugin_name(), "ConsensusRound");
    assert_eq!(Cfg::new().plugin_name(), "Config");
}

#[test]
fn plugins_load_dependencies_first_once_each() {
    let mut plugins = Plugins::new();
    plugins.load(PluginKind::Validator);
    let order = plugins.start_order();
    for (i, k) in order.iter().enumerate() {
        for d in dependencies(*k) {
            assert!(order[..i].contains(&d), "{:?} before {:?}", d, k);
        }
        assert_eq!(order.iter().filter(|x| *x == k).count(), 1);
    }
    assert!(plugins.get(PluginKind::Inbox));
    assert!(!plugins.get(PluginKind::Networking));
    let mut shutdown = plugins.shutdown_order();
    shutdown.reverse();
    assert_eq!(shutdown, order);
}

#[test]
fn plugins_provide_keeps_the_first() {
    let mut plugins = Plugins::new();
    assert!(plugins.provide(PluginKind::Config));
    assert!(!plugins.provide(PluginKind::Config));
    assert_eq!(plugins.start_order(), vec![PluginKind::Config]);
}

#[test]
fn protocol_loads_core_plugins_after_config() {
    let protocol = Protocol::new(&Cfg::new());
    let started = protocol.start();
    assert_eq!(started[0], PluginKind::Config);
    for k in [
        PluginKind::BlockStorage,
        PluginKind::BlockDAG,
        PluginKind::VirtualVoting,
        PluginKind::Consensus,
        PluginKind::ConsensusRound,
        PluginKind::TipSelection,
        PluginKind::BlockFactory,
        PluginKind::ConsensusFeed,
    ] {
        assert!(started.contains(&k));
    }
    assert!(!started.contains(&PluginKind::Validator));
    let mut down = protocol.shutdown();
    down.reverse();
    assert_eq!(down, started);
}

type Handler = fn(Option<ValidatorConfigParams>, Plugins) -> Plugins;
type Cfg = Config<Handler>;

fn validator_and_networking(params: Option<ValidatorConfigParams>, registry: Plugins) -> Plugins {
    assert_eq!(params, Some(ValidatorConfigParams { validator_id: 7 }));
    assert_eq!(registry.start_order(), vec![PluginKind::Config]);
    let mut registry = registry;
    registry.load(PluginKind::Validator);
    registry.load(PluginKind::Networking);
    registry
}

fn core_and_validator(params: Option<ValidatorConfigParams>, registry: Plugins) -> Plugins {
    let mut registry = ProtocolPlugins::<Handler>::Core.inject(params, registry);
    registry.load(PluginKind::Validator);
    registry
}

#[test]
fn protocol_with_custom_plugins_and_validator() {
    let config = Cfg::new()
        .with_protocol_params(ProtocolParams::new().with_plugins(ProtocolPlugins::Custom(
            validator_and_networking as Handler,
        )))
        .with_params(ValidatorConfigParams { validator_id: 7 });
    assert_eq!(config.validator_id(), 7);
    assert_eq!(config.params(), Some(ValidatorConfigParams { validator_id: 7 }));
    let protocol = Protocol::new(&config);
    let started = protocol.start();
    assert!(started.contains(&PluginKind::Validator));
    assert!(started.contains(&PluginKind::Outbox));
    assert!(!started.contains(&PluginKind::ConsensusFeed));
    let default_plugins: ProtocolPlugins<Handler> = Default::default();
    assert!(matches!(default_plugins, ProtocolPlugins::Core));
    assert!(Cfg::new().params().is_none());
}

#[test]
fn protocol_custom_handler_can_extend_the_core_plugins() {
    let config = Cfg::new().with_protocol_params(ProtocolParams::new().with_plugins(ProtocolPlugins::Custom(
        core_and_validator as Handler,
    )));
    let started = Protocol::new(&config).start();
    assert_eq!(started[0], PluginKind::Config);
    assert!(started.contains(&PluginKind::ConsensusFeed));
    assert_eq!(started.last(), Some(&PluginKind::Validator));
    assert_eq!(started.iter().filter(|k| **k == PluginKind::Inbox).count(), 1);
}

#[test]
fn protocol_errors_wrap_component_errors() {
    assert_eq!(
        ProtocolError::from_dag(DagError::BlockNotFound),
        ProtocolError::BlockDagError(DagError::BlockNotFound)
    );
    assert_eq!(
        ProtocolError::from_voting(VotingError::NoMilestone),
        ProtocolError::VirtualVotingError(VotingError::NoMilestone)
    );
}

fn v(source: u64, round: u64, leader_weight: u64) -> Vote {
    Vote {
        source,
        issuer: Issuer::Genesis,
        round,
        leader_weight,
        committee: Committee::new(vec![Member::new(1, 1)], 0),
        milestone: None,
        referenced_milestones: vec![],
    }
}

#[test]
fn votes_order_by_round_then_leader_weight_then_block() {
    assert!(v(1, 2, 0).ge(&v(9, 1, 9)));
    assert!(!v(9, 1, 9).ge(&v(1, 2, 0)));
    assert!(v(1, 1, 5).ge(&v(9, 1, 4)));
    assert!(v(9, 1, 4).ge(&v(1, 1, 4)));
    assert!(v(3, 3, 3).ge(&v(3, 3, 3)));
    assert_eq!(v(1, 1, 1).milestone(), Err(VotingError::NoMilestone));
    assert_eq!(v(1, 1, 1).height(), Err(VotingError::NoMilestone));
}

#[test]
fn protocl_test_test_protocol() {
    let protocol = Protocol::new(&Cfg::new());
    assert!(protocol.start().contains(&PluginKind::BlockFactory));

    let mut dag = BlockDAG::new();
    let mut tips = TipSelection::new();
    let mut inbox = Inbox::new();
    dag.insert_block(Block::GenesisBlock(GENESIS_ID));
    tips.init(GENESIS_ID);

    let block = BlockFactory::new().create_block(&tips, 32, 1);
    assert!(inbox.send(block).is_ok());
    let received = inbox.receive().unwrap();
    let (_, available) = dag.insert_block(received);
    println!("Blocks ordered: {:?}", available);
    assert_eq!(available, vec![32]);
    tips.process_block(&dag, 32).unwrap();
    assert_eq!(tips.get(), vec![32]);
}
