//! The constants of a beacon chain, and the signature domain that they give
//! for a fork.

use vstd::prelude::*;
use crate::le::{le_u64, read_u64, u32_le, write_u32};

verus! {

/// A slot number.
#[derive(Debug, Clone, Copy, PartialEq, Eq, Structural)]
pub struct Slot(pub u64);

impl Slot {
    pub fn new(slot: u64) -> (r: Slot)
        ensures
            r.0 == slot,
    {
        Slot(slot)
    }

    pub fn as_u64(&self) -> (r: u64)
        ensures
            r == self.0,
    {
        self.0
    }
}

/// An epoch number.
#[derive(Debug, Clone, Copy, PartialEq, Eq, Structural)]
pub struct Epoch(pub u64);

impl Epoch {
    pub fn new(epoch: u64) -> (r: Epoch)
        ensures
            r.0 == epoch,
    {
        Epoch(epoch)
    }

    pub fn as_u64(&self) -> (r: u64)
        ensures
            r == self.0,
    {
        self.0
    }
}

/// A hash of 32 bytes.
#[derive(Debug, Clone, Copy, PartialEq, Eq)]
pub struct Hash256 {
    pub bytes: [u8; 32],
}

impl Hash256 {
    /// The hash whose bytes are all zero.
    pub fn zero() -> (r: Hash256)
        ensures
            forall|i: int| 0 <= i < 32 ==> r.bytes@[i] == 0,
    {
        Hash256 { bytes: [0u8; 32] }
    }
}

/// The versions of the chain before and from a fork epoch on.
#[derive(Debug, Clone, Copy, PartialEq, Eq)]
pub struct Fork {
    pub previous_version: [u8; 4],
    pub current_version: [u8; 4],
    pub epoch: Epoch,
}

impl Fork {
    /// The version in force at `epoch`.
    pub open spec fn version_at(self, epoch: Epoch) -> Seq<u8> {
        if epoch.0 < self.epoch.0 {
            self.previous_version@
        } else {
            self.current_version@
        }
    }

    /// The fork of a chain that starts at `genesis_epoch`: version zero throughout.
    pub fn genesis(genesis_epoch: Epoch) -> (r: Fork)
        ensures
            r.epoch == genesis_epoch,
            r.previous_version@ == seq![0u8, 0u8, 0u8, 0u8],
            r.current_version@ == seq![0u8, 0u8, 0u8, 0u8],
    {
        let r = Fork { previous_version: [0u8, 0u8, 0u8, 0u8], current_version: [0u8, 0u8, 0u8, 0u8], epoch: genesis_epoch };
        assert(r.previous_version@ =~= seq![0u8, 0u8, 0u8, 0u8]);
        assert(r.current_version@ =~= seq![0u8, 0u8, 0u8, 0u8]);
        r
    }

    /// The version in force at `epoch`: the previous one before the fork
    /// epoch, the current one from it on.
    pub fn get_fork_version(&self, epoch: Epoch) -> (r: [u8; 4])
        ensures
            r@ == self.version_at(epoch),
    {
        if epoch.0 < self.epoch.0 {
            self.previous_version
        } else {
            self.current_version
        }
    }
}

/// Each of the signature domains.
#[derive(Debug, Clone, Copy, PartialEq, Eq, Structural)]
pub enum Domain {
    BeaconProposer,
    Randao,
    Attestation,
    Deposit,
    VoluntaryExit,
    Transfer,
}

/// The eight-byte domain of a fork version and a domain constant: the four
/// bytes of the version, then the four bytes of the constant, read as one
/// little-endian integer.
pub open spec fn domain_value(version: Seq<u8>, constant: u32) -> u64 {
    le_u64(version + u32_le(constant))
}

/// The constants of the signature domains. They are private, so that no
/// domain is used that has not been combined with a fork version:
/// `ChainSpec::get_domain` gives the combined value.
#[derive(Debug, Clone, Copy, PartialEq, Eq)]
pub struct DomainConstants {
    beacon_proposer: u32,
    randao: u32,
    attestation: u32,
    deposit: u32,
    voluntary_exit: u32,
    transfer: u32,
}

impl DomainConstants {
    /// The constant of a signature domain.
    pub closed spec fn constant(self, domain: Domain) -> u32 {
        match domain {
            Domain::BeaconProposer => self.beacon_proposer,
            Domain::Randao => self.randao,
            Domain::Attestation => self.attestation,
            Domain::Deposit => self.deposit,
            Domain::VoluntaryExit => self.voluntary_exit,
            Domain::Transfer => self.transfer,
        }
    }

    /// The constants zero to five, in the order of the domains.
    pub fn standard() -> (r: DomainConstants)
        ensures
            r.constant(Domain::BeaconProposer) == 0,
            r.constant(Domain::Randao) == 1,
            r.constant(Domain::Attestation) == 2,
            r.constant(Domain::Deposit) == 3,
            r.constant(Domain::VoluntaryExit) == 4,
            r.constant(Domain::Transfer) == 5,
    {
        DomainConstants { beacon_proposer: 0, randao: 1, attestation: 2, deposit: 3, voluntary_exit: 4, transfer: 5 }
    }

    fn get(&self, domain: Domain) -> (r: u32)
        ensures
            r == self.constant(domain),
    {
        match domain {
            Domain::BeaconProposer => self.beacon_proposer,
            Domain::Randao => self.randao,
            Domain::Attestation => self.attestation,
            Domain::Deposit => self.deposit,
            Domain::VoluntaryExit => self.voluntary_exit,
            Domain::Transfer => self.transfer,
        }
    }
}

/// Holds all the constants of a beacon chain.
#[derive(Debug, Clone, PartialEq)]
pub struct ChainSpec {
    // Misc
    pub target_committee_size: usize,
    pub max_indices_per_attestation: u64,
    pub min_per_epoch_churn_limit: u64,
    pub churn_limit_quotient: u64,
    pub base_rewards_per_epoch: u64,
    pub shuffle_round_count: u8,
    // Deposit contract
    pub deposit_contract_tree_depth: u64,
    // Gwei values
    pub min_deposit_amount: u64,
    pub max_effective_balance: u64,
    pub ejection_balance: u64,
    pub effective_balance_increment: u64,
    // Initial values
    pub genesis_slot: Slot,
    pub far_future_epoch: Epoch,
    pub zero_hash: Hash256,
    pub bls_withdrawal_prefix_byte: u8,
    // Time parameters
    pub genesis_time: u64,
    pub seconds_per_slot: u64,
    pub min_attestation_inclusion_delay: u64,
    pub min_seed_lookahead: Epoch,
    pub activation_exit_delay: u64,
    pub slots_per_eth1_voting_period: u64,
    pub slots_per_historical_root: usize,
    pub min_validator_withdrawability_delay: Epoch,
    pub persistent_committee_period: u64,
    pub max_crosslink_epochs: u64,
    pub min_epochs_to_inactivity_penalty: u64,
    // Reward and penalty quotients
    pub base_reward_quotient: u64,
    pub whistleblowing_reward_quotient: u64,
    pub proposer_reward_quotient: u64,
    pub inactivity_penalty_quotient: u64,
    pub min_slashing_penalty_quotient: u64,
    // Max operations per block
    pub max_proposer_slashings: u64,
    pub max_attester_slashings: u64,
    pub max_attestations: u64,
    pub max_deposits: u64,
    pub max_voluntary_exits: u64,
    pub max_transfers: u64,
    // Signature domains
    pub domains: DomainConstants,
    // Network
    /// The boot nodes' addresses, in their textual form.
    pub boot_nodes: Vec<String>,
    pub chain_id: u8,
}

impl ChainSpec {
    /// The constant of a signature domain.
    pub open spec fn domain_constant(self, domain: Domain) -> u32 {
        self.domains.constant(domain)
    }

    /// The constants that the main network and the minimal preset share.
    pub open spec fn has_shared_constants(self) -> bool {
        &&& self.max_indices_per_attestation == 4096
        &&& self.min_per_epoch_churn_limit == 4
        &&& self.churn_limit_quotient == 65_536
        &&& self.base_rewards_per_epoch == 5
        &&& self.deposit_contract_tree_depth == 32
        &&& self.min_deposit_amount == 1_000_000_000
        &&& self.max_effective_balance == 32_000_000_000
        &&& self.ejection_balance == 16_000_000_000
        &&& self.effective_balance_increment == 1_000_000_000
        &&& self.genesis_slot == Slot(0)
        &&& self.far_future_epoch == Epoch(u64::MAX)
        &&& (forall|i: int| 0 <= i < 32 ==> self.zero_hash.bytes@[i] == 0)
        &&& self.bls_withdrawal_prefix_byte == 0
        &&& self.genesis_time == 0xffff_ffff
        &&& self.seconds_per_slot == 6
        &&& self.min_seed_lookahead == Epoch(1)
        &&& self.activation_exit_delay == 4
        &&& self.slots_per_historical_root == 8_192
        &&& self.min_validator_withdrawability_delay == Epoch(256)
        &&& self.persistent_committee_period == 2_048
        &&& self.max_crosslink_epochs == 64
        &&& self.min_epochs_to_inactivity_penalty == 4
        &&& self.base_reward_quotient == 32
        &&& self.whistleblowing_reward_quotient == 512
        &&& self.proposer_reward_quotient == 8
        &&& self.inactivity_penalty_quotient == 33_554_432
        &&& self.min_slashing_penalty_quotient == 32
        &&& self.max_proposer_slashings == 16
        &&& self.max_attester_slashings == 1
        &&& self.max_attestations == 128
        &&& self.max_deposits == 16
        &&& self.max_voluntary_exits == 16
        &&& self.max_transfers == 0
        &&& self.domain_constant(Domain::BeaconProposer) == 0
        &&& self.domain_constant(Domain::Randao) == 1
        &&& self.domain_constant(Domain::Attestation) == 2
        &&& self.domain_constant(Domain::Deposit) == 3
        &&& self.domain_constant(Domain::VoluntaryExit) == 4
        &&& self.domain_constant(Domain::Transfer) == 5
    }

    /// The constants of the main network.
    pub open spec fn is_mainnet(self) -> bool {
        &&& self.has_shared_constants()
        &&& self.target_committee_size == 128
        &&& self.shuffle_round_count == 90
        &&& self.min_attestation_inclusion_delay == 4
        &&& self.slots_per_eth1_voting_period == 1_024
        &&& self.boot_nodes@.len() == 0
        &&& self.chain_id == 1
    }

    /// The constants of the minimal preset, with its one boot node.
    pub open spec fn is_minimal(self) -> bool {
        &&& self.has_shared_constants()
        &&& self.target_committee_size == 4
        &&& self.shuffle_round_count == 10
        &&& self.min_attestation_inclusion_delay == 2
        &&& self.slots_per_eth1_voting_period == 16
        &&& self.boot_nodes@.len() == 1
        &&& self.boot_nodes@[0]@ == "/ip4/127.0.0.1/tcp/9000"@
        &&& self.chain_id == 2
    }

    /// The domain number that stands for the fork version at `epoch` and the
    /// signature domain.
    pub fn get_domain(&self, epoch: Epoch, domain: Domain, fork: &Fork) -> (r: u64)
        ensures
            r == domain_value(fork.version_at(epoch), self.domain_constant(domain)),
    {
        let domain_constant = self.domains.get(domain);
        let version = fork.get_fork_version(epoch);
        let mut bytes: Vec<u8> = Vec::new();
        bytes.push(version[0]);
        bytes.push(version[1]);
        bytes.push(version[2]);
        bytes.push(version[3]);
        assert(bytes@ =~= version@);
        write_u32(&mut bytes, domain_constant);
        assert(bytes@.subrange(0, 8) =~= bytes@);
        read_u64(bytes.as_slice(), 0)
    }

    /// The constants of the main network.
    pub fn mainnet() -> (r: ChainSpec)
        ensures
            r.is_mainnet(),
    {
        ChainSpec {
            target_committee_size: 128,
            max_indices_per_attestation: 4096,
            min_per_epoch_churn_limit: 4,
            churn_limit_quotient: 65_536,
            base_rewards_per_epoch: 5,
            shuffle_round_count: 90,
            deposit_contract_tree_depth: 32,
            min_deposit_amount: 1_000_000_000,
            max_effective_balance: 32_000_000_000,
            ejection_balance: 16_000_000_000,
            effective_balance_increment: 1_000_000_000,
            genesis_slot: Slot::new(0),
            far_future_epoch: Epoch::new(u64::MAX),
            zero_hash: Hash256::zero(),
            bls_withdrawal_prefix_byte: 0,
            genesis_time: 0xffff_ffff,
            seconds_per_slot: 6,
            min_attestation_inclusion_delay: 4,
            min_seed_lookahead: Epoch::new(1),
            activation_exit_delay: 4,
            slots_per_eth1_voting_period: 1_024,
            slots_per_historical_root: 8_192,
            min_validator_withdrawability_delay: Epoch::new(256),
            persistent_committee_period: 2_048,
            max_crosslink_epochs: 64,
            min_epochs_to_inactivity_penalty: 4,
            base_reward_quotient: 32,
            whistleblowing_reward_quotient: 512,
            proposer_reward_quotient: 8,
            inactivity_penalty_quotient: 33_554_432,
            min_slashing_penalty_quotient: 32,
            max_proposer_slashings: 16,
            max_attester_slashings: 1,
            max_attestations: 128,
            max_deposits: 16,
            max_voluntary_exits: 16,
            max_transfers: 0,
            domains: DomainConstants::standard(),
            boot_nodes: Vec::new(),
            chain_id: 1,
        }
    }

    /// The minimal preset: the main network's constants with smaller
    /// committees, fewer shuffle rounds, shorter delays, and one local boot
    /// node that stands in until static boot nodes exist.
    pub fn minimal() -> (r: ChainSpec)
        ensures
            r.is_minimal(),
    {
        let mut boot_nodes: Vec<String> = Vec::new();
        boot_nodes.push("/ip4/127.0.0.1/tcp/9000".to_owned());
        let mut r = ChainSpec::mainnet();
        r.target_committee_size = 4;
        r.shuffle_round_count = 10;
        r.min_attestation_inclusion_delay = 2;
        r.slots_per_eth1_voting_period = 16;
        r.genesis_slot = Slot::new(0);
        r.chain_id = 2;
        r.boot_nodes = boot_nodes;
        r
    }
}

impl Default for ChainSpec {
    fn default() -> (r: ChainSpec)
        ensures
            r.is_mainnet(),
    {
        ChainSpec::mainnet()
    }
}

} // verus!
