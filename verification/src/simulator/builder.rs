//! How a local test network is described before it is started.

use crate::simulator::local_network::{
    ClientConfig, LocalNetworkParams, MockExecutionConfig, NodeType,
};
use vstd::prelude::*;

verus! {

/// How much is logged.
#[derive(Debug, Clone, Copy, PartialEq, Eq, Structural)]
pub enum LevelFilter {
    OFF,
    ERROR,
    WARN,
    INFO,
    DEBUG,
    TRACE,
}

/// What is logged, and where.
#[derive(Debug)]
pub struct LoggerConfig {
    /// The directory of the log file, if there is one.
    pub path: Option<String>,
    pub debug_level: LevelFilter,
    pub logfile_debug_level: LevelFilter,
    /// The log file is for its owner alone.
    pub is_restricted: bool,
}

/// The settings of the chain that tests change. An epoch of `None` is that of a fork that never
/// happens.
#[derive(Debug, Clone, Copy)]
pub struct ChainSpec {
    pub seconds_per_slot: u64,
    pub slot_duration_ms: u64,
    pub min_genesis_time: u64,
    pub genesis_delay: u64,
    pub min_genesis_active_validator_count: u64,
    pub data_column_sidecar_subnet_count: u64,
    pub number_of_custody_groups: u64,
    pub altair_fork_epoch: Option<u64>,
    pub bellatrix_fork_epoch: Option<u64>,
    pub capella_fork_epoch: Option<u64>,
    pub deneb_fork_epoch: Option<u64>,
    pub electra_fork_epoch: Option<u64>,
    pub fulu_fork_epoch: Option<u64>,
}

/// The environment in which the nodes run.
#[derive(Debug, Clone, Copy)]
pub struct EnvironmentBuilder {
    pub spec: ChainSpec,
}

/// The settings of the nodes of a network that was started.
#[derive(Debug, Clone, Copy)]
pub struct TestConfig {
    pub client: ClientConfig,
    pub execution: MockExecutionConfig,
}

/// The description of a network.
#[derive(Debug)]
pub struct TestNetworkFixtureBuilder {
    pub env: EnvironmentBuilder,
    pub network_params: LocalNetworkParams,
    pub logger_config: LoggerConfig,
    /// Nothing is logged to the standard output.
    pub disable_stdout: bool,
}

/// The mode of a log file that only its owner reads and writes.
pub const RESTRICTED_FILE_MODE: u32 = 0o600;

/// The mode of a log file that everybody reads.
pub const SHARED_FILE_MODE: u32 = 0o644;

/// What a network is started with.
#[derive(Debug)]
pub struct NetworkInit {
    pub env: EnvironmentBuilder,
    pub network_params: LocalNetworkParams,
    pub logger_config: LoggerConfig,
    /// The mode of the log file.
    pub file_mode: u32,
    /// Whether the standard output gets a log.
    pub stdout: bool,
}

/// Which beacon nodes a validator client uses.
#[derive(Debug, Clone, Copy)]
pub enum ValidatorNodes {
    /// A node, and one to fall back to. The client broadcasts all topics.
    WithFallback { beacon_node: usize, fallback: usize },
    /// One node of a kind.
    Single { beacon_node: usize, node_type: NodeType },
}

/// A validator client to be started.
#[derive(Debug, Clone, Copy)]
pub struct ValidatorSetup {
    /// The index of the first validator of the client.
    pub first: usize,
    /// The index after that of the last validator of the client.
    pub end: usize,
    pub nodes: ValidatorNodes,
}

impl TestNetworkFixtureBuilder {
    /// A network of two plain nodes and four validators.
    pub fn new(env: EnvironmentBuilder, logger_config: LoggerConfig) -> (r: Self)
        ensures
            r == (TestNetworkFixtureBuilder {
                env,
                network_params: LocalNetworkParams {
                    validator_count: 4,
                    node_count: 2,
                    proposer_nodes: 0,
                    proof_generator_nodes: 0,
                    proof_verifier_nodes: 0,
                    extra_nodes: 0,
                    delayed_nodes: 0,
                    genesis_delay: 38,
                },
                logger_config,
                disable_stdout: false,
            }),
    {
        TestNetworkFixtureBuilder {
            env,
            network_params: LocalNetworkParams {
                validator_count: 4,
                node_count: 2,
                proposer_nodes: 0,
                proof_generator_nodes: 0,
                proof_verifier_nodes: 0,
                extra_nodes: 0,
                delayed_nodes: 0,
                genesis_delay: 38,
            },
            logger_config,
            disable_stdout: false,
        }
    }

    /// With another environment.
    pub fn with_env(self, env: EnvironmentBuilder) -> (r: Self)
        ensures
            r == (TestNetworkFixtureBuilder { env, ..self }),
    {
        TestNetworkFixtureBuilder { env, ..self }
    }

    /// With an environment that `f` changed.
    pub fn map_env<F: FnOnce(&mut EnvironmentBuilder)>(self, f: F) -> (r: Self)
        requires
            forall|env: &mut EnvironmentBuilder| *env == self.env ==> call_requires(f, (env,)),
        ensures
            exists|env: &mut EnvironmentBuilder|
                {
                    &&& *env == self.env
                    &&& #[trigger] call_ensures(f, (env,), ())
                    &&& r == (TestNetworkFixtureBuilder { env: *final(env), ..self })
                },
    {
        let mut r = self;
        f(&mut r.env);
        r
    }

    /// With settings of the chain that `f` changed.
    pub fn map_spec<F: FnOnce(&mut ChainSpec)>(self, f: F) -> (r: Self)
        requires
            forall|spec: &mut ChainSpec| *spec == self.env.spec ==> call_requires(f, (spec,)),
        ensures
            exists|spec: &mut ChainSpec|
                {
                    &&& *spec == self.env.spec
                    &&& #[trigger] call_ensures(f, (spec,), ())
                    &&& r == (TestNetworkFixtureBuilder {
                        env: EnvironmentBuilder { spec: *final(spec) },
                        ..self
                    })
                },
    {
        let mut r = self;
        f(&mut r.env.spec);
        r
    }

    /// With one level for both logs.
    pub fn with_log_level(self, level: LevelFilter) -> (r: Self)
        ensures
            r == (TestNetworkFixtureBuilder {
                logger_config: LoggerConfig {
                    debug_level: level,
                    logfile_debug_level: level,
                    ..self.logger_config
                },
                ..self
            }),
    {
        let mut r = self;
        r.logger_config.debug_level = level;
        r.logger_config.logfile_debug_level = level;
        r
    }

    /// With a directory for the log file.
    pub fn with_log_dir(self, log_dir: String) -> (r: Self)
        ensures
            r == (TestNetworkFixtureBuilder {
                logger_config: LoggerConfig { path: Some(log_dir), ..self.logger_config },
                ..self
            }),
    {
        let mut r = self;
        r.logger_config.path = Some(log_dir);
        r
    }

    /// With settings of the logs that `f` changed.
    pub fn map_logger_config<F: FnOnce(&mut LoggerConfig)>(self, f: F) -> (r: Self)
        requires
            forall|config: &mut LoggerConfig|
                *config == self.logger_config ==> call_requires(f, (config,)),
        ensures
            exists|config: &mut LoggerConfig|
                {
                    &&& *config == self.logger_config
                    &&& #[trigger] call_ensures(f, (config,), ())
                    &&& r == (TestNetworkFixtureBuilder { logger_config: *final(config), ..self })
                },
    {
        let mut r = self;
        f(&mut r.logger_config);
        r
    }

    /// With other nodes.
    pub fn with_network_params(self, network_params: LocalNetworkParams) -> (r: Self)
        ensures
            r == (TestNetworkFixtureBuilder { network_params, ..self }),
    {
        TestNetworkFixtureBuilder { network_params, ..self }
    }

    /// With nodes that `f` changed.
    pub fn map_network_params<F: FnOnce(&mut LocalNetworkParams)>(self, f: F) -> (r: Self)
        requires
            forall|params: &mut LocalNetworkParams|
                *params == self.network_params ==> call_requires(f, (params,)),
        ensures
            exists|params: &mut LocalNetworkParams|
                {
                    &&& *params == self.network_params
                    &&& #[trigger] call_ensures(f, (params,), ())
                    &&& r == (TestNetworkFixtureBuilder { network_params: *final(params), ..self })
                },
    {
        let mut r = self;
        f(&mut r.network_params);
        r
    }

    /// What the network is started with. The settings of the chain agree with those of the network.
    pub fn init_network(self) -> (r: NetworkInit)
        ensures
            r == (NetworkInit {
                env: EnvironmentBuilder {
                    spec: ChainSpec {
                        genesis_delay: self.network_params.genesis_delay,
                        min_genesis_active_validator_count:
                            self.network_params.validator_count as u64,
                        ..self.env.spec
                    },
                },
                network_params: self.network_params,
                logger_config: self.logger_config,
                file_mode: if self.logger_config.is_restricted {
                    RESTRICTED_FILE_MODE
                } else {
                    SHARED_FILE_MODE
                },
                stdout: !self.disable_stdout,
            }),
    {
        let mut env = self.env;
        env.spec.genesis_delay = self.network_params.genesis_delay;
        env.spec.min_genesis_active_validator_count = self.network_params.validator_count as u64;
        let file_mode: u32 = if self.logger_config.is_restricted {
            RESTRICTED_FILE_MODE
        } else {
            SHARED_FILE_MODE
        };
        NetworkInit {
            env,
            network_params: self.network_params,
            logger_config: self.logger_config,
            file_mode,
            stdout: !self.disable_stdout,
        }
    }
}

/// Appends an item a number of times.
fn push_times(items: &mut Vec<NodeType>, item: NodeType, times: usize)
    ensures
        final(items)@ == old(items)@ + Seq::new(times as nat, |i: int| item),
{
    let ghost before = items@;
    let mut i: usize = 0;
    while i < times
        invariant
            i <= times,
            items@ == before + Seq::new(i as nat, |j: int| item),
        decreases times - i,
    {
        items.push(item);
        i = i + 1;
        assert(items@ =~= before + Seq::new(i as nat, |j: int| item));
    }
    assert(items@ =~= before + Seq::new(times as nat, |j: int| item));
}

impl LocalNetworkParams {
    /// The kinds of the nodes that the network starts with, in the order in which they are started:
    /// the kind of each is that of its index.
    pub fn init_beacon_nodes(&self) -> (r: Vec<NodeType>)
        ensures
            r@.len() == self.initial_nodes(),
            forall|i: int| 0 <= i < r@.len() ==> #[trigger] r@[i] == self.spec_node_type(i),
    {
        let mut r: Vec<NodeType> = Vec::new();
        push_times(&mut r, NodeType::Default, self.node_count);
        push_times(&mut r, NodeType::Proposer, self.proposer_nodes);
        push_times(&mut r, NodeType::ProofGenerator, self.proof_generator_nodes);
        push_times(&mut r, NodeType::ProofVerifier, self.proof_verifier_nodes);
        r
    }

    /// How many validator clients the network starts with.
    pub open spec fn client_count(self) -> int {
        self.node_count + self.proof_generator_nodes
    }

    /// How many validators each client has.
    pub open spec fn per_client(self) -> int {
        self.validator_count as int / self.client_count()
    }

    /// Whether `setup` is that of the client with index `i`. Every fourth client has a fallback:
    /// the next plain node.
    pub open spec fn is_setup(self, i: int, setup: ValidatorSetup) -> bool {
        &&& setup.first == i * self.per_client()
        &&& setup.end == (i + 1) * self.per_client()
        &&& match setup.nodes {
            ValidatorNodes::WithFallback { beacon_node, fallback } => i % 4 == 0 && beacon_node == i
                && fallback == (i + 1) % (self.node_count as int),
            ValidatorNodes::Single { beacon_node, node_type } => i % 4 != 0 && beacon_node == i
                && node_type == self.spec_node_type(i),
        }
    }

    /// The validator clients that the network starts with.
    pub fn init_validators(&self) -> (r: Vec<ValidatorSetup>)
        requires
            self.node_count > 0,
            self.client_count() <= usize::MAX,
        ensures
            r@.len() == self.client_count(),
            forall|i: int| 0 <= i < r@.len() ==> self.is_setup(i, #[trigger] r@[i]),
    {
        let clients: usize = self.node_count + self.proof_generator_nodes;
        let per_client: usize = self.validator_count / clients;
        let mut r: Vec<ValidatorSetup> = Vec::new();
        let mut i: usize = 0;
        while i < clients
            invariant
                i <= clients,
                clients == self.client_count(),
                clients > 0,
                self.node_count > 0,
                per_client == self.per_client(),
                r@.len() == i,
                forall|j: int| 0 <= j < i ==> self.is_setup(j, #[trigger] r@[j]),
            decreases clients - i,
        {
            proof {
                lemma_client_range(*self, i as int);
            }
            let nodes = if i % 4 == 0 {
                ValidatorNodes::WithFallback { beacon_node: i, fallback: (i + 1) % self.node_count }
            } else {
                ValidatorNodes::Single { beacon_node: i, node_type: self.node_type(i) }
            };
            r.push(ValidatorSetup { first: i * per_client, end: (i + 1) * per_client, nodes });
            i = i + 1;
        }
        r
    }
}

/// The validators of a client are among those of the network.
proof fn lemma_client_range(params: LocalNetworkParams, i: int)
    requires
        0 <= i < params.client_count(),
    ensures
        0 <= params.per_client(),
        0 <= i * params.per_client() <= (i + 1) * params.per_client() <= params.validator_count,
{
    let n = params.client_count();
    let v = params.validator_count as int;
    let p = params.per_client();
    assert(0 <= p && p * n <= v) by (nonlinear_arith)
        requires
            n > 0,
            v >= 0,
            p == v / n,
    ;
    assert(0 <= i * p <= (i + 1) * p <= p * n) by (nonlinear_arith)
        requires
            0 <= i < n,
            0 <= p,
    ;
}

/// No validator belongs to two clients, and every validator of a client is one of the network.
pub proof fn law_clients_apart(params: LocalNetworkParams, setups: Seq<ValidatorSetup>)
    requires
        params.node_count > 0,
        setups.len() == params.client_count(),
        forall|i: int| 0 <= i < setups.len() ==> params.is_setup(i, #[trigger] setups[i]),
    ensures
        forall|i: int|
            0 <= i < setups.len() ==> (#[trigger] setups[i]).first <= setups[i].end
                <= params.validator_count,
        forall|i: int, j: int|
            0 <= i < j < setups.len() ==> (#[trigger] setups[i]).end <= (
            #[trigger] setups[j]).first,
{
    assert forall|i: int| 0 <= i < setups.len() implies (#[trigger] setups[i]).first
        <= setups[i].end <= params.validator_count by {
        lemma_client_range(params, i);
    }
    assert forall|i: int, j: int| 0 <= i < j < setups.len() implies (#[trigger] setups[i]).end <= (
    #[trigger] setups[j]).first by {
        lemma_client_range(params, i);
        let p = params.per_client();
        assert((i + 1) * p <= j * p) by (nonlinear_arith)
            requires
                i + 1 <= j,
                0 <= p,
        ;
    }
}

impl ValidatorSetup {
    /// The indices of the validators of the client.
    pub fn indices(&self) -> (r: Vec<usize>)
        requires
            self.first <= self.end,
        ensures
            r@.len() == self.end - self.first,
            forall|i: int| 0 <= i < r@.len() ==> #[trigger] r@[i] == self.first + i,
    {
        let mut r: Vec<usize> = Vec::new();
        let mut i: usize = self.first;
        while i < self.end
            invariant
                self.first <= i <= self.end,
                r@.len() == i - self.first,
                forall|j: int| 0 <= j < r@.len() ==> #[trigger] r@[j] == self.first + j,
            decreases self.end - i,
        {
            r.push(i);
            i = i + 1;
        }
        r
    }
}

/// The clients share the validators from the first one on, equally and without a gap. What is left
/// over does not suffice for one more each.
pub proof fn law_clients_share_validators(params: LocalNetworkParams, setups: Seq<ValidatorSetup>)
    requires
        params.node_count > 0,
        setups.len() == params.node_count + params.proof_generator_nodes,
        forall|i: int| 0 <= i < setups.len() ==> params.is_setup(i, #[trigger] setups[i]),
    ensures
        setups[0].first == 0,
        forall|i: int, j: int|
            0 <= i < setups.len() && 0 <= j < setups.len() ==> (#[trigger] setups[i]).end
                - setups[i].first == (#[trigger] setups[j]).end - setups[j].first,
        forall|i: int, j: int|
            0 <= i < setups.len() && j == i + 1 && j < setups.len() ==> (#[trigger] setups[i]).end
                == (#[trigger] setups[j]).first,
        0 <= params.validator_count - setups[setups.len() - 1].end < setups.len(),
{
    let n = params.client_count();
    let p = params.per_client();
    let v = params.validator_count as int;
    assert(p * n <= v && v - p * n < n) by (nonlinear_arith)
        requires
            n > 0,
            v >= 0,
            p == v / n,
    ;
    assert forall|i: int| 0 <= i < setups.len() implies (#[trigger] setups[i]).end
        - setups[i].first == p && setups[i].first == i * p by {
        assert((i + 1) * p - i * p == p) by (nonlinear_arith);
    }
    assert(setups[0].first == 0 * p);
    assert(setups[setups.len() - 1].end == n * p);
    assert(n * p == p * n) by (nonlinear_arith);
}

/// Each client uses the node of its own index. Every fourth one, from the first on, falls back to the
/// plain node after that, and the one after the last plain node is the first. The others know the kind
/// of their node.
pub proof fn law_client_nodes(params: LocalNetworkParams, i: int, setup: ValidatorSetup)
    requires
        params.node_count > 0,
        0 <= i < params.node_count + params.proof_generator_nodes,
        params.is_setup(i, setup),
    ensures
        i % 4 == 0 <==> setup.nodes is WithFallback,
        match setup.nodes {
            ValidatorNodes::WithFallback { beacon_node, fallback } => {
                &&& beacon_node == i
                &&& fallback < params.node_count
                &&& i + 1 < params.node_count ==> fallback == i + 1
                &&& i + 1 == params.node_count ==> fallback == 0
            },
            ValidatorNodes::Single { beacon_node, node_type } => {
                &&& beacon_node == i
                &&& i < params.node_count ==> node_type is Default
            },
        },
{
    let n = params.node_count as int;
    vstd::arithmetic::div_mod::lemma_mod_bound(i + 1, n);
    if i + 1 < n {
        vstd::arithmetic::div_mod::lemma_small_mod((i + 1) as nat, n as nat);
    }
    vstd::arithmetic::div_mod::lemma_mod_self_0(n);
}

} // verus!
