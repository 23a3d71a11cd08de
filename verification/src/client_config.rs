//! The configuration of a client, and the rules by which command-line
//! arguments change it. Reading the arguments, the home directory and the log
//! file is the caller's part: this module takes what was read as plain values.

use vstd::prelude::*;
use crate::chain_spec::ChainSpec;

verus! {

/// Where the chain's data is kept.
#[derive(Debug, Clone, Copy, PartialEq, Eq, Structural)]
pub enum DBType {
    Memory,
    Disk,
}

/// An IP address: the 32 bits of a version 4 address or the 128 bits of a
/// version 6 address, most significant byte first.
#[derive(Debug, Clone, Copy, PartialEq, Eq, Structural)]
pub enum IpAddress {
    V4(u32),
    V6(u128),
}

/// An address to listen on: an IP address and a TCP port.
#[derive(Debug, Clone, Copy, PartialEq, Eq, Structural)]
pub struct ListenAddress {
    pub ip: IpAddress,
    pub port: u16,
}

/// The fork choice rule that the client runs.
#[derive(Debug, Clone, Copy, PartialEq, Eq, Structural)]
pub enum ForkChoiceAlgorithm {
    BitwiseLMDGhost,
}

/// Where the client listens for peers, and which peers it first connects to.
#[derive(Debug, Clone, PartialEq, Eq)]
pub struct NetworkConfig {
    pub listen_addresses: Vec<ListenAddress>,
    pub listen_port: u16,
    /// The boot nodes' addresses, in their textual form.
    pub boot_nodes: Vec<String>,
}

/// The settings of the RPC endpoint.
#[derive(Debug, Clone, Copy, PartialEq, Eq, Structural)]
pub struct RPCConfig {
    pub enabled: bool,
    /// A version 4 address, most significant byte first.
    pub listen_address: u32,
    pub port: u16,
}

/// Stores the client configuration for one instance.
#[derive(Debug, Clone, PartialEq)]
pub struct ClientConfig {
    pub data_dir: String,
    pub log_file: String,
    pub spec: ChainSpec,
    pub net_conf: NetworkConfig,
    pub fork_choice: ForkChoiceAlgorithm,
    pub db_type: DBType,
    pub db_name: String,
    pub rpc_conf: RPCConfig,
}

/// A command-line value that has to be read as a number or an address: not
/// given, given but unreadable, or given with what it reads as.
#[derive(Debug, Clone, PartialEq, Eq)]
pub enum Arg<T> {
    Absent,
    Invalid,
    Given(T),
}

/// The command-line arguments, each as far as it could be read.
#[derive(Debug, Clone, PartialEq, Eq)]
pub struct CliArgs {
    pub port: Arg<u16>,
    pub listen_address: Arg<IpAddress>,
    pub boot_node: Arg<String>,
    pub datadir: Option<String>,
    pub rpc: bool,
    pub rpc_address: Arg<u32>,
    pub rpc_port: Arg<u16>,
    pub db: DBType,
    pub logfile: Option<String>,
}

/// The argument that could not be read.
#[derive(Debug, Clone, Copy, PartialEq, Eq, Structural)]
pub enum ArgError {
    InvalidPort,
    InvalidListenAddress,
    InvalidBootNode,
    InvalidRpcAddress,
    InvalidRpcPort,
}

impl ArgError {
    /// The message for the user. An unreadable boot node is reported in the
    /// words of an unreadable listen address.
    pub fn message(&self) -> (r: &'static str)
        ensures
            r@ == match *self {
                ArgError::InvalidPort => "Invalid port"@,
                ArgError::InvalidListenAddress => "Invalid IP Address"@,
                ArgError::InvalidBootNode => "Invalid IP Address"@,
                ArgError::InvalidRpcAddress => "Invalid RPC listen address"@,
                ArgError::InvalidRpcPort => "Invalid RPC port"@,
            },
    {
        match self {
            ArgError::InvalidPort => "Invalid port",
            ArgError::InvalidListenAddress => "Invalid IP Address",
            ArgError::InvalidBootNode => "Invalid IP Address",
            ArgError::InvalidRpcAddress => "Invalid RPC listen address",
            ArgError::InvalidRpcPort => "Invalid RPC port",
        }
    }
}

impl CliArgs {
    /// The first argument that could not be read, in the order in which the
    /// arguments are taken up: port, listen address, boot node, RPC address,
    /// RPC port.
    pub open spec fn first_error(self) -> Option<ArgError> {
        if self.port is Invalid {
            Some(ArgError::InvalidPort)
        } else if self.listen_address is Invalid {
            Some(ArgError::InvalidListenAddress)
        } else if self.boot_node is Invalid {
            Some(ArgError::InvalidBootNode)
        } else if self.rpc_address is Invalid {
            Some(ArgError::InvalidRpcAddress)
        } else if self.rpc_port is Invalid {
            Some(ArgError::InvalidRpcPort)
        } else {
            None
        }
    }

    /// The port to listen on: the one given, else the one in force.
    pub open spec fn listen_port(self, current: u16) -> u16 {
        match self.port {
            Arg::Given(p) => p,
            _ => current,
        }
    }

    /// The addresses to listen on: the one address given, with the port to
    /// listen on; else the addresses in force, each with the port given, if
    /// one was.
    pub open spec fn listen_addresses(self, current: Seq<ListenAddress>, port: u16) -> Seq<
        ListenAddress,
    > {
        match self.listen_address {
            Arg::Given(ip) => seq![(ListenAddress { ip, port: self.listen_port(port) })],
            _ => match self.port {
                Arg::Given(p) => Seq::new(
                    current.len(),
                    |i: int| (ListenAddress { ip: current[i].ip, port: p }),
                ),
                _ => current,
            },
        }
    }

    /// The boot nodes: those in force, and behind them the one given.
    pub open spec fn boot_nodes(self, current: Seq<String>) -> Seq<String> {
        match self.boot_node {
            Arg::Given(node) => current.push(node),
            _ => current,
        }
    }

    /// The RPC settings: enabled if they were or the flag is given, with the
    /// address and the port given, where they are.
    pub open spec fn rpc_conf(self, current: RPCConfig) -> RPCConfig {
        RPCConfig {
            enabled: current.enabled || self.rpc,
            listen_address: match self.rpc_address {
                Arg::Given(a) => a,
                _ => current.listen_address,
            },
            port: match self.rpc_port {
                Arg::Given(p) => p,
                _ => current.port,
            },
        }
    }
}

impl NetworkConfig {
    /// The network settings of a client with the given boot nodes: it listens
    /// on the local address, port 9000.
    pub fn new(boot_nodes: Vec<String>) -> (r: NetworkConfig)
        ensures
            r.listen_addresses@ == seq![
                (ListenAddress { ip: IpAddress::V4(0x7f00_0001), port: 9000 }),
            ],
            r.listen_port == 9000,
            r.boot_nodes == boot_nodes,
    {
        let mut listen_addresses: Vec<ListenAddress> = Vec::new();
        listen_addresses.push(ListenAddress { ip: IpAddress::V4(0x7f00_0001), port: 9000 });
        assert(listen_addresses@ =~= seq![
            (ListenAddress { ip: IpAddress::V4(0x7f00_0001), port: 9000 }),
        ]);
        NetworkConfig { listen_addresses, listen_port: 9000, boot_nodes }
    }
}

impl Default for RPCConfig {
    /// Disabled, on the local address, port 5051.
    fn default() -> (r: RPCConfig)
        ensures
            r == (RPCConfig { enabled: false, listen_address: 0x7f00_0001, port: 5051 }),
    {
        RPCConfig { enabled: false, listen_address: 0x7f00_0001, port: 5051 }
    }
}

impl ClientConfig {
    /// The configuration of a client that keeps its data in `data_dir` and
    /// names its database `db_name`: no log file, the minimal chain constants
    /// and their boot nodes, the database in memory, the RPC endpoint off.
    pub fn with_data_dir(data_dir: String, db_name: String) -> (r: ClientConfig)
        ensures
            r.data_dir == data_dir,
            r.db_name == db_name,
            r.log_file@.len() == 0,
            r.spec.is_minimal(),
            r.net_conf.listen_addresses@ == seq![
                (ListenAddress { ip: IpAddress::V4(0x7f00_0001), port: 9000 }),
            ],
            r.net_conf.listen_port == 9000,
            r.net_conf.boot_nodes@.len() == 1,
            r.net_conf.boot_nodes@[0]@ == "/ip4/127.0.0.1/tcp/9000"@,
            r.fork_choice == ForkChoiceAlgorithm::BitwiseLMDGhost,
            r.db_type == DBType::Memory,
            r.rpc_conf == (RPCConfig { enabled: false, listen_address: 0x7f00_0001, port: 5051 }),
    {
        let spec = ChainSpec::minimal();
        let mut boot_nodes: Vec<String> = Vec::new();
        boot_nodes.push(spec.boot_nodes[0].clone());
        ClientConfig {
            data_dir,
            log_file: String::new(),
            spec,
            net_conf: NetworkConfig::new(boot_nodes),
            fork_choice: ForkChoiceAlgorithm::BitwiseLMDGhost,
            db_type: DBType::Memory,
            db_name,
            rpc_conf: RPCConfig { enabled: false, listen_address: 0x7f00_0001, port: 5051 },
        }
    }

    /// Applies the command-line arguments to a configuration.
    ///
    /// The first argument that could not be read fails with its error, and
    /// nothing is applied. Otherwise each argument that is given replaces what
    /// it names; a boot node is added to those in force; the chain constants,
    /// the fork choice and the database's name stay.
    pub fn parse_args(config: ClientConfig, args: CliArgs) -> (r: Result<ClientConfig, ArgError>)
        ensures
            match r {
                Err(e) => args.first_error() == Some(e),
                Ok(c) => {
                    &&& args.first_error().is_none()
                    &&& c.net_conf.listen_port == args.listen_port(config.net_conf.listen_port)
                    &&& c.net_conf.listen_addresses@ == args.listen_addresses(
                        config.net_conf.listen_addresses@,
                        config.net_conf.listen_port,
                    )
                    &&& c.net_conf.boot_nodes@ == args.boot_nodes(config.net_conf.boot_nodes@)
                    &&& c.data_dir == match args.datadir {
                        Some(dir) => dir,
                        None => config.data_dir,
                    }
                    &&& c.rpc_conf == args.rpc_conf(config.rpc_conf)
                    &&& c.db_type == args.db
                    &&& c.log_file == match args.logfile {
                        Some(file) => file,
                        None => config.log_file,
                    }
                    &&& c.spec == config.spec
                    &&& c.fork_choice == config.fork_choice
                    &&& c.db_name == config.db_name
                },
            },
    {
        let mut config = config;
        let ghost before = config;
        let CliArgs { port, listen_address, boot_node, datadir, rpc, rpc_address, rpc_port, db, logfile } = args;
        match port {
            Arg::Invalid => {
                return Err(ArgError::InvalidPort);
            },
            Arg::Given(p) => {
                config.net_conf.listen_port = p;
                let mut addresses: Vec<ListenAddress> = Vec::new();
                let mut i: usize = 0;
                while i < config.net_conf.listen_addresses.len()
                    invariant
                        0 <= i <= config.net_conf.listen_addresses@.len(),
                        config.net_conf.listen_addresses@ == before.net_conf.listen_addresses@,
                        addresses@.len() == i,
                        forall|j: int|
                            0 <= j < i ==> #[trigger] addresses@[j] == (ListenAddress {
                                ip: before.net_conf.listen_addresses@[j].ip,
                                port: p,
                            }),
                    decreases config.net_conf.listen_addresses@.len() - i,
                {
                    let ip = config.net_conf.listen_addresses[i].ip;
                    addresses.push(ListenAddress { ip, port: p });
                    i = i + 1;
                }
                assert(addresses@ =~= Seq::new(
                    before.net_conf.listen_addresses@.len(),
                    |i: int| (ListenAddress { ip: before.net_conf.listen_addresses@[i].ip, port: p }),
                ));
                config.net_conf.listen_addresses = addresses;
            },
            Arg::Absent => {},
        }
        match listen_address {
            Arg::Invalid => {
                return Err(ArgError::InvalidListenAddress);
            },
            Arg::Given(ip) => {
                let mut addresses: Vec<ListenAddress> = Vec::new();
                addresses.push(ListenAddress { ip, port: config.net_conf.listen_port });
                assert(addresses@ =~= seq![
                    (ListenAddress { ip, port: config.net_conf.listen_port }),
                ]);
                config.net_conf.listen_addresses = addresses;
            },
            Arg::Absent => {},
        }
        match boot_node {
            Arg::Invalid => {
                return Err(ArgError::InvalidBootNode);
            },
            Arg::Given(node) => {
                config.net_conf.boot_nodes.push(node);
            },
            Arg::Absent => {},
        }
        match datadir {
            Some(dir) => {
                config.data_dir = dir;
            },
            None => {},
        }
        if rpc {
            config.rpc_conf.enabled = true;
        }
        match rpc_address {
            Arg::Invalid => {
                return Err(ArgError::InvalidRpcAddress);
            },
            Arg::Given(address) => {
                config.rpc_conf.listen_address = address;
            },
            Arg::Absent => {},
        }
        match rpc_port {
            Arg::Invalid => {
                return Err(ArgError::InvalidRpcPort);
            },
            Arg::Given(p) => {
                config.rpc_conf.port = p;
            },
            Arg::Absent => {},
        }
        config.db_type = db;
        match logfile {
            Some(file) => {
                config.log_file = file;
            },
            None => {},
        }
        Ok(config)
    }
}

} // verus!
