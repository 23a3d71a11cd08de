use beacon_codec::chain_spec::ChainSpec;
use beacon_codec::client_config::{
    Arg, ArgError, CliArgs, ClientConfig, DBType, ForkChoiceAlgorithm, IpAddress, ListenAddress,
    NetworkConfig, RPCConfig,
};

fn defaults() -> ClientConfig {
    ClientConfig::with_data_dir("/home/user/.lighthouse/".to_string(), "/home/user/.lighthouse/chain_db".to_string())
}

fn no_args() -> CliArgs {
    CliArgs {
        port: Arg::Absent,
        listen_address: Arg::Absent,
        boot_node: Arg::Absent,
        datadir: None,
        rpc: false,
        rpc_address: Arg::Absent,
        rpc_port: Arg::Absent,
        db: DBType::Memory,
        logfile: None,
    }
}

const LOCAL: IpAddress = IpAddress::V4(0x7f00_0001);

#[test]
fn default_configuration() {
    let config = defaults();
    assert_eq!(config.data_dir, "/home/user/.lighthouse/");
    assert_eq!(config.db_name, "/home/user/.lighthouse/chain_db");
    assert_eq!(config.log_file, "");
    assert_eq!(config.spec, ChainSpec::minimal());
    assert_eq!(config.net_conf, NetworkConfig::new(vec!["/ip4/127.0.0.1/tcp/9000".to_string()]));
    assert_eq!(config.net_conf.listen_addresses, vec![ListenAddress { ip: LOCAL, port: 9000 }]);
    assert_eq!(config.net_conf.listen_port, 9000);
    assert_eq!(config.fork_choice, ForkChoiceAlgorithm::BitwiseLMDGhost);
    assert_eq!(config.db_type, DBType::Memory);
    assert_eq!(config.rpc_conf, RPCConfig::default());
    assert_eq!(config.rpc_conf, RPCConfig { enabled: false, listen_address: 0x7f00_0001, port: 5051 });
}

#[test]
fn no_arguments_change_nothing() {
    assert_eq!(ClientConfig::parse_args(defaults(), no_args()), Ok(defaults()));
}

#[test]
fn port_moves_every_listen_address() {
    let mut config = defaults();
    config.net_conf.listen_addresses.push(ListenAddress { ip: IpAddress::V6(1), port: 9000 });
    let mut args = no_args();
    args.port = Arg::Given(9100);
    let parsed = ClientConfig::parse_args(config, args).unwrap();
    assert_eq!(parsed.net_conf.listen_port, 9100);
    assert_eq!(
        parsed.net_conf.listen_addresses,
        vec![
            ListenAddress { ip: LOCAL, port: 9100 },
            ListenAddress { ip: IpAddress::V6(1), port: 9100 },
        ]
    );
}

#[test]
fn listen_address_replaces_the_addresses() {
    let mut args = no_args();
    args.listen_address = Arg::Given(IpAddress::V4(0x0a00_0002));
    let parsed = ClientConfig::parse_args(defaults(), args).unwrap();
    assert_eq!(
        parsed.net_conf.listen_addresses,
        vec![ListenAddress { ip: IpAddress::V4(0x0a00_0002), port: 9000 }]
    );
    let mut args = no_args();
    args.port = Arg::Given(7);
    args.listen_address = Arg::Given(IpAddress::V6(5));
    let parsed = ClientConfig::parse_args(defaults(), args).unwrap();
    assert_eq!(parsed.net_conf.listen_addresses, vec![ListenAddress { ip: IpAddress::V6(5), port: 7 }]);
}

#[test]
fn every_argument_is_applied() {
    let args = CliArgs {
        port: Arg::Absent,
        listen_address: Arg::Absent,
        boot_node: Arg::Given("/ip4/10.0.0.1/tcp/9001".to_string()),
        datadir: Some("/data".to_string()),
        rpc: true,
        rpc_address: Arg::Given(0x0a00_0001),
        rpc_port: Arg::Given(6000),
        db: DBType::Disk,
        logfile: Some("node.log".to_string()),
    };
    let parsed = ClientConfig::parse_args(defaults(), args).unwrap();
    assert_eq!(
        parsed.net_conf.boot_nodes,
        vec!["/ip4/127.0.0.1/tcp/9000".to_string(), "/ip4/10.0.0.1/tcp/9001".to_string()]
    );
    assert_eq!(parsed.data_dir, "/data");
    assert_eq!(parsed.db_name, "/home/user/.lighthouse/chain_db");
    assert_eq!(parsed.rpc_conf, RPCConfig { enabled: true, listen_address: 0x0a00_0001, port: 6000 });
    assert_eq!(parsed.db_type, DBType::Disk);
    assert_eq!(parsed.log_file, "node.log");
    assert_eq!(parsed.spec, ChainSpec::minimal());
}

#[test]
fn first_unreadable_argument_fails() {
    let mut args = no_args();
    args.port = Arg::Invalid;
    args.rpc_port = Arg::Invalid;
    assert_eq!(ClientConfig::parse_args(defaults(), args), Err(ArgError::InvalidPort));
    let mut args = no_args();
    args.listen_address = Arg::Invalid;
    args.boot_node = Arg::Invalid;
    assert_eq!(ClientConfig::parse_args(defaults(), args), Err(ArgError::InvalidListenAddress));
    let mut args = no_args();
    args.boot_node = Arg::Invalid;
    args.rpc_address = Arg::Invalid;
    assert_eq!(ClientConfig::parse_args(defaults(), args), Err(ArgError::InvalidBootNode));
    let mut args = no_args();
    args.rpc_address = Arg::Invalid;
    args.rpc_port = Arg::Invalid;
    assert_eq!(ClientConfig::parse_args(defaults(), args), Err(ArgError::InvalidRpcAddress));
    let mut args = no_args();
    args.port = Arg::Given(1);
    args.rpc_port = Arg::Invalid;
    assert_eq!(ClientConfig::parse_args(defaults(), args), Err(ArgError::InvalidRpcPort));
}

#[test]
fn error_messages() {
    assert_eq!(ArgError::InvalidPort.message(), "Invalid port");
    assert_eq!(ArgError::InvalidListenAddress.message(), "Invalid IP Address");
    assert_eq!(ArgError::InvalidBootNode.message(), "Invalid IP Address");
    assert_eq!(ArgError::InvalidRpcAddress.message(), "Invalid RPC listen address");
    assert_eq!(ArgError::InvalidRpcPort.message(), "Invalid RPC port");
}
