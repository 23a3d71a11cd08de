use beacon_codec::chain_spec::{ChainSpec, Domain, Epoch, Fork, Hash256, Slot};
use beacon_codec::le::{write_u32, write_u64};

fn int_to_bytes4(x: u32) -> Vec<u8> {
    let mut out = vec![];
    write_u32(&mut out, x);
    out
}

fn int_to_bytes8(x: u64) -> Vec<u8> {
    let mut out = vec![];
    write_u64(&mut out, x);
    out
}

fn test_domain(domain_type: Domain, raw_domain: u32, spec: &ChainSpec) {
    let fork = Fork::genesis(Epoch::new(0));
    let epoch = Epoch::new(0);

    let domain = spec.get_domain(epoch, domain_type, &fork);

    let mut expected = fork.get_fork_version(epoch).to_vec();
    expected.append(&mut int_to_bytes4(raw_domain));

    assert_eq!(int_to_bytes8(domain), expected);
}

#[test]
fn test_mainnet_spec_can_be_constructed() {
    let _ = ChainSpec::mainnet();
}

#[test]
fn test_get_domain() {
    let spec = ChainSpec::mainnet();

    test_domain(Domain::BeaconProposer, 0, &spec);
    test_domain(Domain::Randao, 1, &spec);
    test_domain(Domain::Attestation, 2, &spec);
    test_domain(Domain::Deposit, 3, &spec);
    test_domain(Domain::VoluntaryExit, 4, &spec);
    test_domain(Domain::Transfer, 5, &spec);
}

#[test]
fn domain_combines_version_and_constant() {
    let spec = ChainSpec::mainnet();
    let fork = Fork {
        previous_version: [1, 2, 3, 4],
        current_version: [5, 6, 7, 8],
        epoch: Epoch::new(10),
    };
    assert_eq!(fork.get_fork_version(Epoch::new(9)), [1, 2, 3, 4]);
    assert_eq!(fork.get_fork_version(Epoch::new(10)), [5, 6, 7, 8]);
    assert_eq!(
        spec.get_domain(Epoch::new(9), Domain::Deposit, &fork),
        0x0000_0003_0403_0201
    );
    assert_eq!(
        spec.get_domain(Epoch::new(10), Domain::Transfer, &fork),
        0x0000_0005_0807_0605
    );
    assert_eq!(spec.get_domain(Epoch::new(0), Domain::Randao, &Fork::genesis(Epoch::new(0))), 1 << 32);
}

#[test]
fn mainnet_constants() {
    let spec = ChainSpec::mainnet();
    assert_eq!(spec.target_committee_size, 128);
    assert_eq!(spec.shuffle_round_count, 90);
    assert_eq!(spec.min_deposit_amount, 1_000_000_000);
    assert_eq!(spec.max_effective_balance, 32_000_000_000);
    assert_eq!(spec.ejection_balance, 16_000_000_000);
    assert_eq!(spec.genesis_slot, Slot::new(0));
    assert_eq!(spec.far_future_epoch, Epoch::new(u64::MAX));
    assert_eq!(spec.zero_hash, Hash256::zero());
    assert_eq!(spec.zero_hash.bytes, [0u8; 32]);
    assert_eq!(spec.genesis_time, u64::from(u32::MAX));
    assert_eq!(spec.inactivity_penalty_quotient, 33_554_432);
    assert_eq!(spec.min_attestation_inclusion_delay, 4);
    assert_eq!(spec.slots_per_eth1_voting_period, 1_024);
    assert!(spec.boot_nodes.is_empty());
    assert_eq!(spec.chain_id, 1);
    assert_eq!(ChainSpec::default(), spec);
}

#[test]
fn minimal_overrides_mainnet() {
    let spec = ChainSpec::minimal();
    assert_eq!(spec.target_committee_size, 4);
    assert_eq!(spec.shuffle_round_count, 10);
    assert_eq!(spec.min_attestation_inclusion_delay, 2);
    assert_eq!(spec.slots_per_eth1_voting_period, 16);
    assert_eq!(spec.genesis_slot.as_u64(), 0);
    assert_eq!(spec.chain_id, 2);
    assert_eq!(spec.boot_nodes, vec!["/ip4/127.0.0.1/tcp/9000".to_string()]);
    let mut expected = ChainSpec::mainnet();
    expected.target_committee_size = 4;
    expected.shuffle_round_count = 10;
    expected.min_attestation_inclusion_delay = 2;
    expected.slots_per_eth1_voting_period = 16;
    expected.chain_id = 2;
    expected.boot_nodes = vec!["/ip4/127.0.0.1/tcp/9000".to_string()];
    assert_eq!(spec, expected);
}
