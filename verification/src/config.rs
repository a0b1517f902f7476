//! The router's configuration: sources of account data, the server, metrics,
//! price feed and the enabled pools, and the rule that reads a value from the
//! environment when it starts with `$`.
use vstd::prelude::*;
use vstd::string::StrSliceExecFns;

verus! {

#[derive(Clone, Debug, Default)]
pub struct GrpcSourceConfig {
    pub name: String,
    pub connection_string: String,
    pub token: Option<String>,
    pub retry_connection_sleep_secs: u64,
    pub tls: Option<TlsConfig>,
}

#[derive(Clone, Debug, Default)]
pub struct QuicSourceConfig {
    pub name: String,
    pub connection_string: String,
    pub retry_connection_sleep_secs: u64,
    pub enable_gso: Option<bool>,
}

#[derive(Clone, Debug, Default)]
pub struct TlsConfig {
    pub ca_cert_path: String,
    pub client_cert_path: String,
    pub client_key_path: String,
    pub domain_name: String,
}

#[derive(Clone, Debug, Default)]
pub struct HotMintsConfig {
    pub always_hot_mints: Vec<String>,
    pub keep_latest_count: usize,
}

#[derive(Clone, Debug, Default)]
pub struct DexConfig {
    pub enabled: bool,
    pub mints: Vec<String>,
    pub add_mango_tokens: bool,
    pub take_all_mints: bool,
}

#[derive(Clone, Debug, Default)]
pub struct InfinityConfig {
    pub enabled: bool,
}

#[derive(Clone, Debug, Default)]
pub struct AccountDataSourceConfig {
    pub region: Option<String>,
    pub quic_sources: Option<Vec<QuicSourceConfig>>,
    pub rpc_http_url: String,
    /// does RPC node support getProgramAccountsCompressed
    pub rpc_support_compression: Option<bool>,
    pub re_snapshot_interval_secs: Option<u64>,
    pub grpc_sources: Option<Vec<GrpcSourceConfig>>,
    pub dedup_queue_size: usize,
    pub request_timeout_in_seconds: Option<u64>,
    pub number_of_accounts_per_gma: Option<usize>,
}

#[derive(Clone, Copy, Debug, PartialEq, Eq)]
pub enum PathWarmingMode {
    /// No path warming (`None` in the configuration file).
    NoWarming,
    ConfiguredMints,
    MangoMints,
    All,
    HotMints,
}

#[derive(Clone, Debug, Default)]
pub struct ServerConfig {
    pub address: String,
}

#[derive(Clone, Debug, Default)]
pub struct MetricsConfig {
    pub output_stdout: bool,
    pub output_http: bool,
    pub prometheus_address: Option<String>,
}

#[derive(Clone, Debug, Default)]
pub struct PriceFeedConfig {
    pub birdeye_token: String,
    pub birdeye_single_mode: Option<bool>,
    pub refresh_interval_secs: u64,
}

/// The environment variable a configuration value names: the rest of the value
/// when it starts with `$`, none when the value is to be taken as it is. The
/// value must not be empty.
pub fn env_variable_name(value_or_env: &str) -> (r: Option<String>)
    requires
        value_or_env@.len() > 0,
    ensures
        value_or_env@[0] == '$' ==> (r matches Some(name) && name@ == value_or_env@.subrange(
            1,
            value_or_env@.len() as int,
        )),
        value_or_env@[0] != '$' ==> r is None,
{
    let first = value_or_env.get_char(0);
    if first == '$' {
        let len = value_or_env.unicode_len();
        Some(value_or_env.substring_char(1, len).to_owned())
    } else {
        None
    }
}

/// An account of a compressed snapshot: its key and its compressed data, both encoded.
#[derive(Clone, Debug, PartialEq, Eq)]
pub struct RpcKeyedCompressedAccount {
    pub p: String,
    pub a: String,
}

} // verus!
