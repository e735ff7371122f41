//! The settings of the indexing process.

use vstd::prelude::*;
use vstd::string::StringExecFns;

verus! {

/// The database path of a process that names none.
pub open spec fn default_db_path() -> Seq<char> {
    "./db"@
}

/// The bind address of a process that names none.
pub open spec fn default_bind_address() -> Seq<char> {
    "0.0.0.0:3000"@
}

/// What the indexing process is started with.
#[derive(Debug, PartialEq, Eq)]
pub struct Config {
    pub rpc_url: String,
    pub privacy_proxy_address: String,
    pub token_pool_address: String,
    pub db_path: String,
    pub server_bind_address: String,
    pub token_address: String,
}

impl Clone for Config {
    fn clone(&self) -> (r: Self)
        ensures
            r == *self,
    {
        Config {
            rpc_url: self.rpc_url.clone(),
            privacy_proxy_address: self.privacy_proxy_address.clone(),
            token_pool_address: self.token_pool_address.clone(),
            db_path: self.db_path.clone(),
            server_bind_address: self.server_bind_address.clone(),
            token_address: self.token_address.clone(),
        }
    }
}

/// The setting that is required and was not given.
#[derive(Clone, Copy, Debug, PartialEq, Eq, Structural)]
pub enum ConfigError {
    MissingRpcUrl,
    MissingPrivacyProxyAddress,
    MissingTokenPoolAddress,
    MissingTokenAddress,
}

impl Config {
    /// Builds the settings from the values found, `None` where a value
    /// was not given. The node's address, the two contract addresses
    /// and the token's address are required, and the first of them
    /// that is missing, in this order, is reported. The database path
    /// and the bind address have defaults.
    pub fn from_values(
        rpc_url: Option<String>,
        privacy_proxy_address: Option<String>,
        token_pool_address: Option<String>,
        db_path: Option<String>,
        server_bind_address: Option<String>,
        token_address: Option<String>,
    ) -> (r: Result<Config, ConfigError>)
        ensures
            match r {
                Ok(config) => {
                    &&& rpc_url matches Some(v) && config.rpc_url@ == v@
                    &&& privacy_proxy_address matches Some(v) && config.privacy_proxy_address@ == v@
                    &&& token_pool_address matches Some(v) && config.token_pool_address@ == v@
                    &&& token_address matches Some(v) && config.token_address@ == v@
                    &&& config.db_path@ == match db_path {
                        Some(v) => v@,
                        None => default_db_path(),
                    }
                    &&& config.server_bind_address@ == match server_bind_address {
                        Some(v) => v@,
                        None => default_bind_address(),
                    }
                },
                Err(ConfigError::MissingRpcUrl) => rpc_url is None,
                Err(ConfigError::MissingPrivacyProxyAddress) => rpc_url is Some
                    && privacy_proxy_address is None,
                Err(ConfigError::MissingTokenPoolAddress) => rpc_url is Some
                    && privacy_proxy_address is Some && token_pool_address is None,
                Err(ConfigError::MissingTokenAddress) => rpc_url is Some
                    && privacy_proxy_address is Some && token_pool_address is Some
                    && token_address is None,
            },
    {
        let rpc_url = match rpc_url {
            Some(v) => v,
            None => {
                return Err(ConfigError::MissingRpcUrl);
            },
        };
        let privacy_proxy_address = match privacy_proxy_address {
            Some(v) => v,
            None => {
                return Err(ConfigError::MissingPrivacyProxyAddress);
            },
        };
        let token_pool_address = match token_pool_address {
            Some(v) => v,
            None => {
                return Err(ConfigError::MissingTokenPoolAddress);
            },
        };
        let db_path = match db_path {
            Some(v) => v,
            None => String::from_str("./db"),
        };
        let server_bind_address = match server_bind_address {
            Some(v) => v,
            None => String::from_str("0.0.0.0:3000"),
        };
        let token_address = match token_address {
            Some(v) => v,
            None => {
                return Err(ConfigError::MissingTokenAddress);
            },
        };
        Ok(
            Config {
                rpc_url,
                privacy_proxy_address,
                token_pool_address,
                db_path,
                server_bind_address,
                token_address,
            },
        )
    }
}

} // verus!
