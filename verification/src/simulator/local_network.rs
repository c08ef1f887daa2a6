//! The nodes of a local test network.

use crate::mock_url::{mock_address, mock_proof_engine_url};
use crate::text::{append_decimal, decimal};
use vstd::prelude::*;
use vstd::string::*;

verus! {

/// The number of the block at which the merge happens.
pub const TERMINAL_BLOCK: u64 = 0;

/// How often the address of the boot node is asked for.
pub const ENR_ATTEMPTS: usize = 100;

/// How long to wait between two such attempts, in milliseconds.
pub const ENR_RETRY_DELAY: u64 = 100;

/// The kinds of nodes.
#[derive(Debug, Clone, Copy, PartialEq, Eq, Structural)]
pub enum NodeType {
    Default,
    Proposer,
    ProofVerifier,
    ProofGenerator,
}

impl NodeType {
    /// Whether the node only proposes.
    pub fn is_proposer(&self) -> (r: bool)
        ensures
            r == (*self is Proposer),
    {
        matches!(self, NodeType::Proposer)
    }

    /// Whether the node verifies proofs.
    pub fn is_proof_verifier(&self) -> (r: bool)
        ensures
            r == (*self is ProofVerifier),
    {
        matches!(self, NodeType::ProofVerifier)
    }

    /// Whether the node generates proofs.
    pub fn is_proof_generator(&self) -> (r: bool)
        ensures
            r == (*self is ProofGenerator),
    {
        matches!(self, NodeType::ProofGenerator)
    }

    /// Whether the node needs a proof node.
    pub fn requires_proof_node(&self) -> (r: bool)
        ensures
            r == (*self is ProofVerifier || *self is ProofGenerator),
    {
        matches!(self, NodeType::ProofVerifier | NodeType::ProofGenerator)
    }

    /// Whether the node needs an execution node.
    pub fn requires_execution_node(&self) -> (r: bool)
        ensures
            r == (*self is Default || *self is Proposer || *self is ProofGenerator),
    {
        matches!(self, NodeType::Default | NodeType::Proposer | NodeType::ProofGenerator)
    }
}

/// How many nodes and validators a network has, and when it starts.
#[derive(Debug, Clone, Copy)]
pub struct LocalNetworkParams {
    pub validator_count: usize,
    pub node_count: usize,
    pub proposer_nodes: usize,
    pub proof_generator_nodes: usize,
    pub proof_verifier_nodes: usize,
    pub extra_nodes: usize,
    pub delayed_nodes: usize,
    /// The time from the creation of the network to its start, in seconds.
    pub genesis_delay: u64,
}

impl LocalNetworkParams {
    /// How many nodes the network starts with.
    pub open spec fn initial_nodes(self) -> int {
        self.node_count + self.proposer_nodes + self.proof_generator_nodes
            + self.proof_verifier_nodes
    }

    /// How many nodes the network will have.
    pub open spec fn all_nodes(self) -> int {
        self.initial_nodes() + self.extra_nodes + self.delayed_nodes
    }

    /// The kind of a node: the plain nodes come first, then those that propose, those that generate
    /// proofs and those that verify them.
    pub open spec fn spec_node_type(self, node_idx: int) -> NodeType {
        if node_idx < self.node_count {
            NodeType::Default
        } else if node_idx < self.node_count + self.proposer_nodes {
            NodeType::Proposer
        } else if node_idx < self.node_count + self.proposer_nodes + self.proof_generator_nodes {
            NodeType::ProofGenerator
        } else {
            NodeType::ProofVerifier
        }
    }

    /// The kind of a node.
    pub fn node_type(&self, node_idx: usize) -> (r: NodeType)
        requires
            node_idx < self.initial_nodes(),
        ensures
            r == self.spec_node_type(node_idx as int),
    {
        if node_idx < self.node_count {
            return NodeType::Default;
        }
        let idx: usize = node_idx - self.node_count;
        if idx < self.proposer_nodes {
            return NodeType::Proposer;
        }
        let idx: usize = idx - self.proposer_nodes;
        if idx < self.proof_generator_nodes {
            NodeType::ProofGenerator
        } else {
            NodeType::ProofVerifier
        }
    }
}

/// The settings of a beacon node that follow from those of the network.
#[derive(Debug, Clone, Copy)]
pub struct ClientConfig {
    pub validator_count: usize,
    pub genesis_time: u64,
    pub target_peers: usize,
    pub enable_light_client_server: bool,
    pub enable_packet_filter: bool,
    pub optimistic_finalized_sync: bool,
}

/// The settings of a beacon node that looks for all other nodes.
pub fn default_client_config(network_params: &LocalNetworkParams, genesis_time: u64) -> (r:
    ClientConfig)
    requires
        1 <= network_params.all_nodes() <= usize::MAX,
    ensures
        r == (ClientConfig {
            validator_count: network_params.validator_count,
            genesis_time,
            target_peers: (network_params.all_nodes() - 1) as usize,
            enable_light_client_server: true,
            enable_packet_filter: false,
            optimistic_finalized_sync: false,
        }),
{
    let target_peers: usize = network_params.node_count + network_params.proposer_nodes
        + network_params.proof_generator_nodes + network_params.proof_verifier_nodes
        + network_params.extra_nodes + network_params.delayed_nodes - 1;
    ClientConfig {
        validator_count: network_params.validator_count,
        genesis_time,
        target_peers,
        enable_light_client_server: true,
        enable_packet_filter: false,
        optimistic_finalized_sync: false,
    }
}

/// The epochs at which the forks of the consensus layer happen, and what is needed to tell the time
/// of an epoch.
#[derive(Debug, Clone, Copy)]
pub struct ForkSchedule {
    pub seconds_per_slot: u64,
    pub slots_per_epoch: u64,
    pub capella_fork_epoch: Option<u64>,
    pub deneb_fork_epoch: Option<u64>,
    pub electra_fork_epoch: Option<u64>,
    pub fulu_fork_epoch: Option<u64>,
}

/// The times at which the forks of the execution layer happen.
#[derive(Debug, Clone, Copy)]
pub struct MockExecutionConfig {
    pub shanghai_time: Option<u64>,
    pub cancun_time: Option<u64>,
    pub prague_time: Option<u64>,
    pub osaka_time: Option<u64>,
}

impl ForkSchedule {
    /// The time of the start of an epoch.
    pub open spec fn epoch_time(self, genesis_time: u64, epoch: u64) -> int {
        genesis_time + self.seconds_per_slot * self.slots_per_epoch * epoch
    }

    /// Whether the time of a fork can be told in 64 bits.
    pub open spec fn tellable(self, genesis_time: u64, epoch: Option<u64>) -> bool {
        epoch matches Some(epoch) ==> {
            &&& self.seconds_per_slot * self.slots_per_epoch <= u64::MAX
            &&& self.epoch_time(genesis_time, epoch) <= u64::MAX
        }
    }

    /// Whether `time` is the time of the fork at `epoch`.
    pub open spec fn times(self, genesis_time: u64, epoch: Option<u64>, time: Option<u64>) -> bool {
        match (epoch, time) {
            (Some(epoch), Some(time)) => time == self.epoch_time(genesis_time, epoch),
            (None, None) => true,
            _ => false,
        }
    }

    /// The time of the fork at an epoch.
    fn fork_time(&self, genesis_time: u64, epoch: Option<u64>) -> (r: Option<u64>)
        requires
            self.tellable(genesis_time, epoch),
        ensures
            self.times(genesis_time, epoch, r),
    {
        match epoch {
            Some(epoch) => {
                let per_epoch: u64 = self.seconds_per_slot * self.slots_per_epoch;
                Some(genesis_time + per_epoch * epoch)
            },
            None => None,
        }
    }

    /// The times at which the forks of the execution layer happen: each with its fork of the
    /// consensus layer, if that happens at all.
    pub fn default_mock_execution_config(&self, genesis_time: u64) -> (r: MockExecutionConfig)
        requires
            self.tellable(genesis_time, self.capella_fork_epoch),
            self.tellable(genesis_time, self.deneb_fork_epoch),
            self.tellable(genesis_time, self.electra_fork_epoch),
            self.tellable(genesis_time, self.fulu_fork_epoch),
        ensures
            self.times(genesis_time, self.capella_fork_epoch, r.shanghai_time),
            self.times(genesis_time, self.deneb_fork_epoch, r.cancun_time),
            self.times(genesis_time, self.electra_fork_epoch, r.prague_time),
            self.times(genesis_time, self.fulu_fork_epoch, r.osaka_time),
    {
        MockExecutionConfig {
            shanghai_time: self.fork_time(genesis_time, self.capella_fork_epoch),
            cancun_time: self.fork_time(genesis_time, self.deneb_fork_epoch),
            prague_time: self.fork_time(genesis_time, self.electra_fork_epoch),
            osaka_time: self.fork_time(genesis_time, self.fulu_fork_epoch),
        }
    }
}

/// How a beacon node is set up.
#[derive(Debug)]
pub struct NodePlan {
    /// The node is the first one: it is not told of another node, and keeps all columns.
    pub boot_node: bool,
    /// The node only proposes.
    pub proposer_only: bool,
    /// An execution node is started for the node.
    pub execution_node: bool,
    /// The address of the proof engine of the node. It takes part in the exchange of proofs where
    /// it has one.
    pub proof_engine: Option<String>,
    /// The node syncs to finalized blocks before they are executed. Where nothing is said, it does
    /// as its settings say.
    pub optimistic_finalized_sync: Option<bool>,
}

/// What the plan of a node says of its proof engine.
pub open spec fn proof_engine_of(plan: NodePlan) -> Option<Seq<char>> {
    match plan.proof_engine {
        Some(url) => Some(url@),
        None => None,
    }
}

/// How a validator client is set up.
#[derive(Debug, Clone)]
pub struct ValidatorPlan {
    /// The beacon node that the client uses.
    pub beacon_node: usize,
    /// The node that the client proposes through, if there is one.
    pub proposer_node: Option<usize>,
    /// The client serves an API.
    pub proof_generator: bool,
    /// The address of the mock proof engine that the client uses: that of its beacon node.
    pub proof_engine: Option<String>,
}

/// What to do while the boot node has no address yet.
#[derive(Debug)]
pub enum EnrStep {
    /// The boot node can be reached.
    Ready,
    /// Wait, in milliseconds, and ask again.
    Wait(u64),
    /// Give up.
    Failed(String),
}

/// Whether a node can be reached: it has an address with a port for TCP and one for UDP.
pub open spec fn reachable(ports: Option<(Option<u16>, Option<u16>)>) -> bool {
    match ports {
        Some((Some(tcp), Some(udp))) => tcp != 0 && udp != 0,
        _ => false,
    }
}

/// What to do when the boot node was asked for its address, `attempt` times before. `ports` are its
/// ports for TCP and UDP, once it has an address.
pub fn boot_node_enr(attempt: usize, ports: Option<(Option<u16>, Option<u16>)>) -> (r: EnrStep)
    ensures
        match r {
            EnrStep::Ready => attempt < ENR_ATTEMPTS && reachable(ports),
            EnrStep::Wait(delay) => delay == ENR_RETRY_DELAY && attempt < ENR_ATTEMPTS
                && !reachable(ports),
            EnrStep::Failed(text) => attempt >= ENR_ATTEMPTS && text@
                == "Boot node ENR did not get valid TCP and UDP ports within 10 seconds"@,
        },
{
    if attempt >= ENR_ATTEMPTS {
        return EnrStep::Failed(
            "Boot node ENR did not get valid TCP and UDP ports within 10 seconds".to_owned(),
        );
    }
    if let Some((Some(tcp), Some(udp))) = ports {
        if tcp != 0 && udp != 0 {
            return EnrStep::Ready;
        }
    }
    EnrStep::Wait(ENR_RETRY_DELAY)
}

/// The nodes and clients that a network has.
#[derive(Debug, Clone, Copy)]
pub struct LocalNetwork {
    beacon_nodes: usize,
    proposer_nodes: usize,
    execution_nodes: usize,
    validator_clients: usize,
}

/// What a network has.
pub struct NetworkView {
    pub beacon_nodes: int,
    pub proposer_nodes: int,
    pub execution_nodes: int,
    pub validator_clients: int,
}

impl View for LocalNetwork {
    type V = NetworkView;

    closed spec fn view(&self) -> NetworkView {
        NetworkView {
            beacon_nodes: self.beacon_nodes as int,
            proposer_nodes: self.proposer_nodes as int,
            execution_nodes: self.execution_nodes as int,
            validator_clients: self.validator_clients as int,
        }
    }
}

/// The text of an error about a node that the network does not have.
pub open spec fn no_node_message(idx: usize) -> Seq<char> {
    "No beacon node for index "@ + decimal(idx as nat)
}

/// The text of an error about a node that the network does not have.
fn no_node(idx: usize) -> (r: String)
    ensures
        r@ == no_node_message(idx),
{
    let mut text = "No beacon node for index ".to_owned();
    append_decimal(&mut text, idx as u64);
    text
}

impl LocalNetwork {
    /// A network without nodes.
    pub fn new() -> (r: Self)
        ensures
            r@ == (NetworkView {
                beacon_nodes: 0,
                proposer_nodes: 0,
                execution_nodes: 0,
                validator_clients: 0,
            }),
    {
        LocalNetwork {
            beacon_nodes: 0,
            proposer_nodes: 0,
            execution_nodes: 0,
            validator_clients: 0,
        }
    }

    /// How many beacon nodes the network has, without those that only propose.
    pub fn beacon_node_count(&self) -> (r: usize)
        ensures
            r == self@.beacon_nodes,
    {
        self.beacon_nodes
    }

    /// How many nodes of the network only propose.
    pub fn proposer_node_count(&self) -> (r: usize)
        ensures
            r == self@.proposer_nodes,
    {
        self.proposer_nodes
    }

    /// How many validator clients the network has.
    pub fn validator_client_count(&self) -> (r: usize)
        ensures
            r == self@.validator_clients,
    {
        self.validator_clients
    }

    /// Whether a node would be the first one, which the others are told of.
    pub open spec fn needs_boot_node(view: NetworkView) -> bool {
        view.beacon_nodes == 0
    }

    /// Whether `plan` sets up the next node of a kind. While there is no beacon node, it is a boot
    /// node, whatever its kind.
    pub open spec fn is_plan(view: NetworkView, node_type: NodeType, plan: NodePlan) -> bool {
        if Self::needs_boot_node(view) {
            plan == (NodePlan {
                boot_node: true,
                proposer_only: false,
                execution_node: true,
                proof_engine: None,
                optimistic_finalized_sync: None,
            })
        } else {
            &&& !plan.boot_node
            &&& plan.proposer_only == (node_type is Proposer)
            &&& plan.execution_node == (node_type !is ProofVerifier)
            &&& proof_engine_of(plan) == (if node_type is ProofVerifier
                || node_type is ProofGenerator {
                Some(mock_address(view.beacon_nodes as nat))
            } else {
                None
            })
            &&& plan.optimistic_finalized_sync == (if node_type is ProofVerifier {
                Some(true)
            } else {
                None
            })
        }
    }

    /// How the next node of a kind is set up. While there is no beacon node, it is a boot node,
    /// whatever its kind.
    pub fn plan_beacon_node(&self, node_type: NodeType) -> (r: NodePlan)
        ensures
            Self::is_plan(self@, node_type, r),
    {
        if self.beacon_nodes == 0 {
            return NodePlan {
                boot_node: true,
                proposer_only: false,
                execution_node: true,
                proof_engine: None,
                optimistic_finalized_sync: None,
            };
        }
        let proof_engine: Option<String> = if node_type.requires_proof_node() {
            Some(mock_proof_engine_url(self.beacon_nodes))
        } else {
            None
        };
        let optimistic_finalized_sync: Option<bool> = if node_type.is_proof_verifier() {
            Some(true)
        } else {
            None
        };
        NodePlan {
            boot_node: false,
            proposer_only: node_type.is_proposer(),
            execution_node: node_type.requires_execution_node(),
            proof_engine,
            optimistic_finalized_sync,
        }
    }

    /// Adds a node that was set up as planned.
    pub fn add_beacon_node(&mut self, node_type: NodeType) -> (r: NodePlan)
        requires
            old(self)@.beacon_nodes < usize::MAX,
            old(self)@.proposer_nodes < usize::MAX,
            old(self)@.execution_nodes < usize::MAX,
        ensures
            Self::is_plan(old(self)@, node_type, r),
            final(self)@.execution_nodes == old(self)@.execution_nodes + (if r.execution_node {
                1int
            } else {
                0
            }),
            final(self)@.proposer_nodes == old(self)@.proposer_nodes + (if node_type is Proposer {
                1int
            } else {
                0
            }),
            final(self)@.beacon_nodes == old(self)@.beacon_nodes + (if node_type is Proposer {
                0int
            } else {
                1
            }),
            final(self)@.validator_clients == old(self)@.validator_clients,
    {
        let plan = self.plan_beacon_node(node_type);
        if plan.execution_node {
            self.execution_nodes = self.execution_nodes + 1;
        }
        match node_type {
            NodeType::Proposer => {
                self.proposer_nodes = self.proposer_nodes + 1;
            },
            _ => {
                self.beacon_nodes = self.beacon_nodes + 1;
            },
        }
        plan
    }

    /// Adds a validator client for a beacon node. It proposes through the proposer of the same
    /// index, if there is one. That of a proof generator uses the mock proof engine of that index.
    pub fn add_validator_client(&mut self, beacon_node: usize, node_type: NodeType) -> (r: Result<
        ValidatorPlan,
        String,
    >)
        requires
            old(self)@.validator_clients < usize::MAX,
        ensures
            match r {
                Ok(plan) => {
                    &&& beacon_node < old(self)@.beacon_nodes
                    &&& plan.beacon_node == beacon_node
                    &&& plan.proposer_node == if beacon_node < old(self)@.proposer_nodes {
                        Some(beacon_node)
                    } else {
                        None
                    }
                    &&& plan.proof_generator == (node_type is ProofGenerator)
                    &&& match plan.proof_engine {
                        Some(url) => node_type is ProofGenerator && url@ == mock_address(
                            beacon_node as nat,
                        ),
                        None => node_type !is ProofGenerator,
                    }
                    &&& final(self)@ == (NetworkView {
                        validator_clients: old(self)@.validator_clients + 1,
                        ..old(self)@
                    })
                },
                Err(text) => {
                    &&& beacon_node >= old(self)@.beacon_nodes
                    &&& text@ == no_node_message(beacon_node)
                    &&& final(self)@ == old(self)@
                },
            },
    {
        if beacon_node >= self.beacon_nodes {
            return Err(no_node(beacon_node));
        }
        let proposer_node: Option<usize> = if beacon_node < self.proposer_nodes {
            Some(beacon_node)
        } else {
            None
        };
        let proof_generator = node_type.is_proof_generator();
        let proof_engine = if proof_generator {
            Some(mock_proof_engine_url(beacon_node))
        } else {
            None
        };
        self.validator_clients = self.validator_clients + 1;
        Ok(ValidatorPlan { beacon_node, proposer_node, proof_generator, proof_engine })
    }

    /// Adds a validator client that uses several beacon nodes, the first of them first. Refused for
    /// the first node that the network does not have.
    pub fn add_validator_client_with_fallbacks(&mut self, beacon_nodes: &Vec<usize>) -> (r: Result<
        (),
        String,
    >)
        requires
            old(self)@.validator_clients < usize::MAX,
        ensures
            match r {
                Ok(_) => {
                    &&& forall|i: int|
                        0 <= i < beacon_nodes@.len() ==> (#[trigger] beacon_nodes@[i]) < old(
                            self,
                        )@.beacon_nodes
                    &&& final(self)@ == (NetworkView {
                        validator_clients: old(self)@.validator_clients + 1,
                        ..old(self)@
                    })
                },
                Err(text) => {
                    &&& final(self)@ == old(self)@
                    &&& exists|i: int|
                        {
                            &&& 0 <= i < beacon_nodes@.len()
                            &&& (#[trigger] beacon_nodes@[i]) >= old(self)@.beacon_nodes
                            &&& text@ == no_node_message(beacon_nodes@[i])
                            &&& forall|j: int|
                                0 <= j < i ==> (#[trigger] beacon_nodes@[j]) < old(
                                    self,
                                )@.beacon_nodes
                        }
                },
            },
    {
        let mut i: usize = 0;
        while i < beacon_nodes.len()
            invariant
                i <= beacon_nodes@.len(),
                self@ == old(self)@,
                forall|j: int|
                    0 <= j < i ==> (#[trigger] beacon_nodes@[j]) < old(self)@.beacon_nodes,
            decreases beacon_nodes@.len() - i,
        {
            if beacon_nodes[i] >= self.beacon_nodes {
                return Err(no_node(beacon_nodes[i]));
            }
            i = i + 1;
        }
        self.validator_clients = self.validator_clients + 1;
        Ok(())
    }
}

/// The time at which a network starts that is created now.
pub fn genesis_time(now: u64, genesis_delay: u64) -> (r: u64)
    requires
        now + genesis_delay <= u64::MAX,
    ensures
        r == now + genesis_delay,
{
    now + genesis_delay
}

/// The time until the network starts, in the unit of the two times.
pub fn duration_to_genesis(genesis_time: u64, now: u64) -> (r: Result<u64, String>)
    ensures
        match r {
            Ok(rest) => now <= genesis_time && rest == genesis_time - now,
            Err(text) => now > genesis_time && text@
                == "The genesis time has already passed since all nodes started. The node startup time may have regressed, and the current `GENESIS_DELAY` is no longer sufficient."@,
        },
{
    if now <= genesis_time {
        Ok(genesis_time - now)
    } else {
        Err(
            "The genesis time has already passed since all nodes started. The node startup time may have regressed, and the current `GENESIS_DELAY` is no longer sufficient.".to_owned(),
        )
    }
}

/// The address of a node.
pub fn node_url(ip: &str, port: u16) -> (r: String)
    ensures
        r@ == "http://"@ + ip@ + ":"@ + decimal(port as nat),
{
    let mut url = "http://".to_owned();
    url.append(ip);
    url.append(":");
    append_decimal(&mut url, port as u64);
    url
}

/// The kinds of nodes stand in four runs, each as long as there are nodes of the kind.
pub proof fn law_node_kinds(params: LocalNetworkParams, i: int)
    requires
        0 <= i < params.initial_nodes(),
    ensures
        ({
            let kind = params.spec_node_type(i);
            let plain = params.node_count as int;
            let proposing = plain + params.proposer_nodes;
            let generating = proposing + params.proof_generator_nodes;
            &&& params.initial_nodes() == generating + params.proof_verifier_nodes
            &&& kind is Default <==> i < plain
            &&& kind is Proposer <==> plain <= i < proposing
            &&& kind is ProofGenerator <==> proposing <= i < generating
            &&& kind is ProofVerifier <==> generating <= i
        }),
{
}

/// The time of a fork is that of the start of its epoch: the start of the network, and the time that
/// the slots of the epochs before take. A fork that never happens has no time.
pub proof fn law_fork_times(
    schedule: ForkSchedule,
    genesis_time: u64,
    epoch: Option<u64>,
    time: Option<u64>,
)
    requires
        schedule.times(genesis_time, epoch, time),
    ensures
        epoch is Some <==> time is Some,
        epoch is Some ==> time->0 == genesis_time + schedule.seconds_per_slot
            * schedule.slots_per_epoch * epoch->0,
        epoch == Some(0u64) ==> time == Some(genesis_time),
{
    if epoch is Some {
        let per_epoch = schedule.seconds_per_slot * schedule.slots_per_epoch;
        assert(per_epoch * 0 == 0) by (nonlinear_arith);
    }
}

/// A fork with a later epoch has a later time.
pub proof fn law_later_fork_later_time(
    schedule: ForkSchedule,
    genesis_time: u64,
    a: u64,
    b: u64,
    x: u64,
    y: u64,
)
    requires
        schedule.times(genesis_time, Some(a), Some(x)),
        schedule.times(genesis_time, Some(b), Some(y)),
        a < b,
        schedule.seconds_per_slot > 0,
        schedule.slots_per_epoch > 0,
    ensures
        x < y,
{
    let s = schedule.seconds_per_slot as int;
    let n = schedule.slots_per_epoch as int;
    assert(s * n * a < s * n * b) by (nonlinear_arith)
        requires
            s > 0,
            n > 0,
            0 <= a < b,
    ;
}

/// The first node is a boot node with an execution node and nothing else, whatever its kind. Of the
/// others, exactly those that verify proofs run without an execution node and sync before blocks are
/// executed, and exactly those that verify or generate proofs have a proof engine: that of their own
/// index.
pub proof fn law_node_plans(view: NetworkView, node_type: NodeType, plan: NodePlan)
    requires
        LocalNetwork::is_plan(view, node_type, plan),
    ensures
        plan.boot_node <==> view.beacon_nodes == 0,
        plan.execution_node <==> view.beacon_nodes == 0 || node_type !is ProofVerifier,
        plan.proposer_only <==> view.beacon_nodes != 0 && node_type is Proposer,
        plan.proof_engine is Some <==> view.beacon_nodes != 0 && (node_type is ProofVerifier
            || node_type is ProofGenerator),
        plan.proof_engine is Some ==> plan.proof_engine->0@ == mock_address(
            view.beacon_nodes as nat,
        ),
        plan.optimistic_finalized_sync == Some(true) <==> view.beacon_nodes != 0
            && node_type is ProofVerifier,
        plan.optimistic_finalized_sync != Some(true) ==> plan.optimistic_finalized_sync is None,
{
}

/// A node can be reached if and only if it has an address with two ports that are not zero.
pub proof fn law_reachable(tcp: u16, udp: u16, port: Option<u16>)
    ensures
        reachable(Some((Some(tcp), Some(udp)))) <==> tcp > 0 && udp > 0,
        !reachable(Some((None, port))),
        !reachable(Some((port, None))),
        !reachable(None),
{
}

} // verus!
