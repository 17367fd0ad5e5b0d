//! Protocol configuration: which plugins to load and the validator parameters.
use crate::plugins::{PluginKind, Plugins, after_load, after_load_all, deps_first, lemma_load_step, loaded_by};
use crate::types::IssuerId;
use vstd::prelude::*;

verus! {

/// The plugins that the core protocol loads, in that order.
pub open spec fn core_plugins() -> Seq<PluginKind> {
    seq![
        PluginKind::BlockStorage,
        PluginKind::BlockDAG,
        PluginKind::VirtualVoting,
        PluginKind::Consensus,
        PluginKind::ConsensusRound,
        PluginKind::TipSelection,
        PluginKind::BlockFactory,
        PluginKind::ConsensusFeed,
    ]
}

/// Loading the first `m` plugins of `ks` is loading the first `m - 1`, then the `m`-th.
proof fn lemma_after_load_all_take(order: Seq<PluginKind>, ks: Seq<PluginKind>, m: int)
    requires
        0 < m <= ks.len(),
    ensures
        after_load_all(order, ks.take(m)) == after_load(after_load_all(order, ks.take(m - 1)), ks[m - 1]),
{
    assert(ks.take(m).drop_last() =~= ks.take(m - 1));
    assert(ks.take(m).last() == ks[m - 1]);
}

/// Law: the core protocol registers the configuration and exactly the eight
/// core plugins, each once, in this order: block storage, the DAG, virtual
/// voting, consensus, round tracking, tip selection, the block factory and the
/// consensus feed.
pub proof fn law_core_registry()
    ensures
        after_load_all(seq![PluginKind::Config], core_plugins()) == seq![
        PluginKind::Config,
        PluginKind::BlockStorage,
        PluginKind::BlockDAG,
        PluginKind::VirtualVoting,
        PluginKind::Consensus,
        PluginKind::ConsensusRound,
        PluginKind::TipSelection,
        PluginKind::BlockFactory,
        PluginKind::ConsensusFeed,
    ],
{
    let core = core_plugins();
    let s0 = seq![PluginKind::Config];
    assert(core.take(0) =~= Seq::<PluginKind>::empty());
    assert(after_load_all(seq![PluginKind::Config], core.take(0)) == seq![PluginKind::Config]);
    // BlockStorage
    let prev = s0;
    assert(core.take(1).drop_last() =~= core.take(0));
    assert(core.take(1).last() == PluginKind::BlockStorage);
    assert(!prev.contains(PluginKind::BlockStorage)) by {
        if prev.contains(PluginKind::BlockStorage) {
            let i = choose|i: int| 0 <= i < prev.len() && prev[i] == PluginKind::BlockStorage;
        }
    }
    assert(prev[0] == PluginKind::Config);
    lemma_load_step(prev, PluginKind::BlockStorage);
    let s1 = prev.push(PluginKind::BlockStorage);
    lemma_after_load_all_take(seq![PluginKind::Config], core, 1);
    assert(after_load_all(seq![PluginKind::Config], core.take(1)) == s1);
    // BlockDAG
    let prev = s1;
    assert(core.take(2).drop_last() =~= core.take(1));
    assert(core.take(2).last() == PluginKind::BlockDAG);
    assert(!prev.contains(PluginKind::BlockDAG)) by {
        if prev.contains(PluginKind::BlockDAG) {
            let i = choose|i: int| 0 <= i < prev.len() && prev[i] == PluginKind::BlockDAG;
        }
    }
    assert(prev[0] == PluginKind::Config);
    assert(prev[1] == PluginKind::BlockStorage);
    lemma_load_step(prev, PluginKind::BlockDAG);
    let s2 = prev.push(PluginKind::BlockDAG);
    lemma_after_load_all_take(seq![PluginKind::Config], core, 2);
    assert(after_load_all(seq![PluginKind::Config], core.take(2)) == s2);
    // VirtualVoting
    let prev = s2;
    assert(core.take(3).drop_last() =~= core.take(2));
    assert(core.take(3).last() == PluginKind::VirtualVoting);
    assert(!prev.contains(PluginKind::VirtualVoting)) by {
        if prev.contains(PluginKind::VirtualVoting) {
            let i = choose|i: int| 0 <= i < prev.len() && prev[i] == PluginKind::VirtualVoting;
        }
    }
    assert(prev[0] == PluginKind::Config);
    assert(prev[1] == PluginKind::BlockStorage);
    assert(prev[2] == PluginKind::BlockDAG);
    lemma_load_step(prev, PluginKind::VirtualVoting);
    let s3 = prev.push(PluginKind::VirtualVoting);
    lemma_after_load_all_take(seq![PluginKind::Config], core, 3);
    assert(after_load_all(seq![PluginKind::Config], core.take(3)) == s3);
    // Consensus
    let prev = s3;
    assert(core.take(4).drop_last() =~= core.take(3));
    assert(core.take(4).last() == PluginKind::Consensus);
    assert(!prev.contains(PluginKind::Consensus)) by {
        if prev.contains(PluginKind::Consensus) {
            let i = choose|i: int| 0 <= i < prev.len() && prev[i] == PluginKind::Consensus;
        }
    }
    assert(prev[0] == PluginKind::Config);
    assert(prev[1] == PluginKind::BlockStorage);
    assert(prev[2] == PluginKind::BlockDAG);
    assert(prev[3] == PluginKind::VirtualVoting);
    lemma_load_step(prev, PluginKind::Consensus);
    let s4 = prev.push(PluginKind::Consensus);
    lemma_after_load_all_take(seq![PluginKind::Config], core, 4);
    assert(after_load_all(seq![PluginKind::Config], core.take(4)) == s4);
    // ConsensusRound
    let prev = s4;
    assert(core.take(5).drop_last() =~= core.take(4));
    assert(core.take(5).last() == PluginKind::ConsensusRound);
    assert(!prev.contains(PluginKind::ConsensusRound)) by {
        if prev.contains(PluginKind::ConsensusRound) {
            let i = choose|i: int| 0 <= i < prev.len() && prev[i] == PluginKind::ConsensusRound;
        }
    }
    assert(prev[0] == PluginKind::Config);
    assert(prev[1] == PluginKind::BlockStorage);
    assert(prev[2] == PluginKind::BlockDAG);
    assert(prev[3] == PluginKind::VirtualVoting);
    assert(prev[4] == PluginKind::Consensus);
    lemma_load_step(prev, PluginKind::ConsensusRound);
    let s5 = prev.push(PluginKind::ConsensusRound);
    lemma_after_load_all_take(seq![PluginKind::Config], core, 5);
    assert(after_load_all(seq![PluginKind::Config], core.take(5)) == s5);
    // TipSelection
    let prev = s5;
    assert(core.take(6).drop_last() =~= core.take(5));
    assert(core.take(6).last() == PluginKind::TipSelection);
    assert(!prev.contains(PluginKind::TipSelection)) by {
        if prev.contains(PluginKind::TipSelection) {
            let i = choose|i: int| 0 <= i < prev.len() && prev[i] == PluginKind::TipSelection;
        }
    }
    assert(prev[0] == PluginKind::Config);
    assert(prev[1] == PluginKind::BlockStorage);
    assert(prev[2] == PluginKind::BlockDAG);
    assert(prev[3] == PluginKind::VirtualVoting);
    assert(prev[4] == PluginKind::Consensus);
    assert(prev[5] == PluginKind::ConsensusRound);
    lemma_load_step(prev, PluginKind::TipSelection);
    let s6 = prev.push(PluginKind::TipSelection);
    lemma_after_load_all_take(seq![PluginKind::Config], core, 6);
    assert(after_load_all(seq![PluginKind::Config], core.take(6)) == s6);
    // BlockFactory
    let prev = s6;
    assert(core.take(7).drop_last() =~= core.take(6));
    assert(core.take(7).last() == PluginKind::BlockFactory);
    assert(!prev.contains(PluginKind::BlockFactory)) by {
        if prev.contains(PluginKind::BlockFactory) {
            let i = choose|i: int| 0 <= i < prev.len() && prev[i] == PluginKind::BlockFactory;
        }
    }
    assert(prev[0] == PluginKind::Config);
    assert(prev[1] == PluginKind::BlockStorage);
    assert(prev[2] == PluginKind::BlockDAG);
    assert(prev[3] == PluginKind::VirtualVoting);
    assert(prev[4] == PluginKind::Consensus);
    assert(prev[5] == PluginKind::ConsensusRound);
    assert(prev[6] == PluginKind::TipSelection);
    lemma_load_step(prev, PluginKind::BlockFactory);
    let s7 = prev.push(PluginKind::BlockFactory);
    lemma_after_load_all_take(seq![PluginKind::Config], core, 7);
    assert(after_load_all(seq![PluginKind::Config], core.take(7)) == s7);
    // ConsensusFeed
    let prev = s7;
    assert(core.take(8).drop_last() =~= core.take(7));
    assert(core.take(8).last() == PluginKind::ConsensusFeed);
    assert(!prev.contains(PluginKind::ConsensusFeed)) by {
        if prev.contains(PluginKind::ConsensusFeed) {
            let i = choose|i: int| 0 <= i < prev.len() && prev[i] == PluginKind::ConsensusFeed;
        }
    }
    assert(prev[0] == PluginKind::Config);
    assert(prev[1] == PluginKind::BlockStorage);
    assert(prev[2] == PluginKind::BlockDAG);
    assert(prev[3] == PluginKind::VirtualVoting);
    assert(prev[4] == PluginKind::Consensus);
    assert(prev[5] == PluginKind::ConsensusRound);
    assert(prev[6] == PluginKind::TipSelection);
    assert(prev[7] == PluginKind::BlockFactory);
    lemma_load_step(prev, PluginKind::ConsensusFeed);
    let s8 = prev.push(PluginKind::ConsensusFeed);
    lemma_after_load_all_take(seq![PluginKind::Config], core, 8);
    assert(after_load_all(seq![PluginKind::Config], core.take(8)) == s8);
    assert(core.take(8) =~= core);
    assert(s8 =~= seq![
        PluginKind::Config,
        PluginKind::BlockStorage,
        PluginKind::BlockDAG,
        PluginKind::VirtualVoting,
        PluginKind::Consensus,
        PluginKind::ConsensusRound,
        PluginKind::TipSelection,
        PluginKind::BlockFactory,
        PluginKind::ConsensusFeed,
    ]);
}

/// The parameters of a validator: the identifier it issues blocks under.
#[derive(Clone, Copy, PartialEq, Eq, Structural, Debug)]
pub struct ValidatorConfigParams {
    pub validator_id: IssuerId,
}

/// Which plugins the protocol loads: the core set, or those that a handler of
/// the caller's own loads. The handler is given the configuration's validator
/// parameters and the registry, and hands the registry back.
pub enum ProtocolPlugins<H> {
    Core,
    Custom(H),
}

impl<H: Fn(Option<ValidatorConfigParams>, Plugins) -> Plugins> ProtocolPlugins<H> {
    /// Loads the chosen plugins into `registry` and hands it back: the core
    /// plugins, in order; or whatever the handler returns when called once with
    /// `params` and `registry`.
    pub fn inject(&self, params: Option<ValidatorConfigParams>, registry: Plugins) -> (res: Plugins)
        requires
            self is Core ==> registry.wf(),
            self matches ProtocolPlugins::Custom(h) ==> h.requires((params, registry)),
        ensures
            self is Core ==> res.wf() && res@ == after_load_all(registry@, core_plugins()),
            self is Core ==> deps_first(registry@) ==> deps_first(res@),
            self is Core ==> forall|j: int| 0 <= j < core_plugins().len() ==> res@.contains(#[trigger] core_plugins()[j]),
            self is Core ==> forall|i: int|
                registry@.len() <= i < res@.len() ==> loaded_by(core_plugins(), #[trigger] res@[i]),
            self is Core ==> res@.take(registry@.len() as int) == registry@,
            self matches ProtocolPlugins::Custom(h) ==> h.ensures((params, registry), res),
    {
        match self {
            ProtocolPlugins::Core => {
                let mut registry = registry;
                let ks = vec![
                    PluginKind::BlockStorage,
                    PluginKind::BlockDAG,
                    PluginKind::VirtualVoting,
                    PluginKind::Consensus,
                    PluginKind::ConsensusRound,
                    PluginKind::TipSelection,
                    PluginKind::BlockFactory,
                    PluginKind::ConsensusFeed,
                ];
                assert(ks@ =~= core_plugins());
                registry.load_all(&ks);
                registry
            },
            ProtocolPlugins::Custom(handler) => handler(params, registry),
        }
    }
}

impl<H> Default for ProtocolPlugins<H> {
    fn default() -> (res: ProtocolPlugins<H>)
        ensures
            res is Core,
    {
        ProtocolPlugins::Core
    }
}

/// The protocol parameters.
pub struct ProtocolParams<H> {
    pub plugins: ProtocolPlugins<H>,
    pub validator: Option<ValidatorConfigParams>,
}

impl<H> ProtocolParams<H> {
    /// The core plugins and no validator parameters.
    pub fn new() -> (res: ProtocolParams<H>)
        ensures
            res.plugins is Core,
            res.validator is None,
    {
        ProtocolParams { plugins: ProtocolPlugins::Core, validator: None }
    }

    /// These parameters with the plugins `plugins`.
    pub fn with_plugins(self, plugins: ProtocolPlugins<H>) -> (res: ProtocolParams<H>)
        ensures
            res.plugins == plugins,
            res.validator == self.validator,
    {
        ProtocolParams { plugins, validator: self.validator }
    }
}

/// The configuration of a node.
pub struct Config<H> {
    pub protocol_params: ProtocolParams<H>,
}

impl<H> Config<H> {
    /// The default configuration: core plugins, no validator parameters.
    pub fn new() -> (res: Config<H>)
        ensures
            res.protocol_params.plugins is Core,
            res.protocol_params.validator is None,
    {
        Config { protocol_params: ProtocolParams::new() }
    }

    /// This configuration with the protocol parameters `protocol_params`.
    pub fn with_protocol_params(self, protocol_params: ProtocolParams<H>) -> (res: Config<H>)
        ensures
            res.protocol_params == protocol_params,
    {
        Config { protocol_params }
    }

    /// This configuration with the validator parameters `params`, replacing any.
    pub fn with_params(self, params: ValidatorConfigParams) -> (res: Config<H>)
        ensures
            res.protocol_params.plugins == self.protocol_params.plugins,
            res.protocol_params.validator == Some(params),
    {
        Config {
            protocol_params: ProtocolParams {
                plugins: self.protocol_params.plugins,
                validator: Some(params),
            },
        }
    }

    /// The validator parameters, if set.
    pub fn params(&self) -> (res: Option<ValidatorConfigParams>)
        ensures
            res == self.protocol_params.validator,
    {
        self.protocol_params.validator
    }

    /// The identifier of the validator.
    pub fn validator_id(&self) -> (res: IssuerId)
        requires
            self.protocol_params.validator is Some,
        ensures
            res == self.protocol_params.validator->0.validator_id,
    {
        match self.protocol_params.validator {
            Some(p) => p.validator_id,
            None => 0,
        }
    }
}

impl<H: Fn(Option<ValidatorConfigParams>, Plugins) -> Plugins> Config<H> {
    /// Loads the configured plugins into `registry` and hands it back (see
    /// `ProtocolPlugins::inject`).
    pub fn inject_plugins(&self, registry: Plugins) -> (res: Plugins)
        requires
            self.protocol_params.plugins is Core ==> registry.wf(),
            self.protocol_params.plugins matches ProtocolPlugins::Custom(h) ==> h.requires(
                (self.protocol_params.validator, registry),
            ),
        ensures
            self.protocol_params.plugins is Core ==> res.wf() && res@ == after_load_all(registry@, core_plugins()),
            self.protocol_params.plugins is Core ==> deps_first(registry@) ==> deps_first(res@),
            self.protocol_params.plugins is Core ==> forall|j: int|
                0 <= j < core_plugins().len() ==> res@.contains(#[trigger] core_plugins()[j]),
            self.protocol_params.plugins is Core ==> res@.take(registry@.len() as int) == registry@,
            self.protocol_params.plugins matches ProtocolPlugins::Custom(h) ==> h.ensures(
                (self.protocol_params.validator, registry),
                res,
            ),
    {
        self.protocol_params.plugins.inject(self.protocol_params.validator, registry)
    }
}

} // verus!
