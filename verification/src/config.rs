//! Configuration of the discovery service.
use vstd::prelude::*;
use crate::primitives::Address;
use crate::monitors::{UniswapV2Monitor, UniswapV3Monitor};

verus! {

/// Configuration of the discovery service.
#[derive(Clone, Debug)]
pub struct Config {
    /// Whether discovered pools are persisted.
    pub enable_persistence: bool,
    /// Where the persistent store lives.
    pub storage_path: String,
    /// The factories to watch.
    pub factories: Vec<FactoryConfig>,
}

/// A factory to watch.
#[derive(Clone, Debug)]
pub struct FactoryConfig {
    /// Display name.
    pub name: String,
    /// Factory contract address.
    pub address: Address,
    /// Protocol: `"uniswap_v2"` or `"uniswap_v3"`.
    pub protocol: String,
}

impl Default for Config {
    /// Persistence on under `./pool_discovery_data`, watching the mainnet
    /// UniswapV2 and UniswapV3 factories.
    fn default() -> (r: Self)
        ensures
            r.enable_persistence,
            r.storage_path@ == "./pool_discovery_data"@,
            r.factories@.len() == 2,
            r.factories@[0].name@ == "UniswapV2"@,
            r.factories@[0].address == (Address {
                hi: 0x5C69bEe701ef814a2B6a3EDD4B1652CB,
                lo: 0x9cc5aA6f,
            }),
            r.factories@[0].protocol@ == "uniswap_v2"@,
            r.factories@[1].name@ == "UniswapV3"@,
            r.factories@[1].address == (Address {
                hi: 0x1F98431c8aD98523631AE4a59f267346,
                lo: 0xea31F984,
            }),
            r.factories@[1].protocol@ == "uniswap_v3"@,
    {
        let mut factories: Vec<FactoryConfig> = Vec::new();
        factories.push(
            FactoryConfig {
                name: "UniswapV2".to_owned(),
                address: UniswapV2Monitor::mainnet_factory(),
                protocol: "uniswap_v2".to_owned(),
            },
        );
        factories.push(
            FactoryConfig {
                name: "UniswapV3".to_owned(),
                address: UniswapV3Monitor::mainnet_factory(),
                protocol: "uniswap_v3".to_owned(),
            },
        );
        Config {
            enable_persistence: true,
            storage_path: "./pool_discovery_data".to_owned(),
            factories,
        }
    }
}

} // verus!
