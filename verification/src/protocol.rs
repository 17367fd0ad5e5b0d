//! The protocol: the configuration and the plugins it loads.
use crate::config::{Config, ProtocolPlugins, ValidatorConfigParams, core_plugins, law_core_registry};
use crate::plugins::{after_load_all, deps_first, PluginKind, Plugins};
use vstd::prelude::*;

verus! {

/// A protocol instance: its plugin registry.
pub struct Protocol {
    pub plugins: Plugins,
}

impl Protocol {
    /// Registers the configuration, then loads the plugins it names: the core
    /// plugins, or those the configuration's handler loads into the registry
    /// that holds the configuration.
    pub fn new<H: Fn(Option<ValidatorConfigParams>, Plugins) -> Plugins>(config: &Config<H>) -> (res: Protocol)
        requires
            config.protocol_params.plugins matches ProtocolPlugins::Custom(h) ==> forall|r: Plugins|
                #[trigger] h.requires((config.protocol_params.validator, r)),
        ensures
            config.protocol_params.plugins is Core ==> {
                &&& res.plugins.wf()
                &&& res.plugins@ == after_load_all(seq![PluginKind::Config], core_plugins())
                &&& res.plugins@ == seq![
                    PluginKind::Config,
                    PluginKind::BlockStorage,
                    PluginKind::BlockDAG,
                    PluginKind::VirtualVoting,
                    PluginKind::Consensus,
                    PluginKind::ConsensusRound,
                    PluginKind::TipSelection,
                    PluginKind::BlockFactory,
                    PluginKind::ConsensusFeed,
                ]
                &&& res.plugins@[0] == PluginKind::Config
                &&& deps_first(res.plugins@)
                &&& forall|j: int| 0 <= j < core_plugins().len() ==> res.plugins@.contains(#[trigger] core_plugins()[j])
            },
            config.protocol_params.plugins matches ProtocolPlugins::Custom(h) ==> exists|r: Plugins|
                r@ == seq![PluginKind::Config] && #[trigger] h.ensures((config.protocol_params.validator, r), res.plugins),
    {
        let mut plugins = Plugins::new();
        plugins.provide(PluginKind::Config);
        proof {
            assert(plugins@ =~= seq![PluginKind::Config]);
            assert(deps_first(plugins@)) by {
                assert forall|i: int, j: int|
                    0 <= i < plugins@.len() && 0 <= j < crate::plugins::deps(plugins@[i]).len() implies #[trigger] plugins@.take(i).contains(
                    crate::plugins::deps(plugins@[i])[j],
                ) by {
                    assert(plugins@[i] == PluginKind::Config);
                }
            }
        }
        let ghost before = plugins;
        let loaded = config.inject_plugins(plugins);
        proof {
            if config.protocol_params.plugins is Custom {
                assert(before@ == seq![PluginKind::Config]);
            }
        }
        proof {
            if config.protocol_params.plugins is Core {
                assert(loaded@.take(1)[0] == before@[0]);
                law_core_registry();
            }
        }
        Protocol { plugins: loaded }
    }

    /// The plugins in the order they start.
    pub fn start(&self) -> (res: Vec<PluginKind>)
        ensures
            res@ == self.plugins@,
    {
        self.plugins.start_order()
    }

    /// The plugins in the order they shut down.
    pub fn shutdown(&self) -> (res: Vec<PluginKind>)
        ensures
            res@ == self.plugins@.reverse(),
    {
        self.plugins.shutdown_order()
    }
}

} // verus!
