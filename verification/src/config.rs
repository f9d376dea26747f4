//! The runtime's configuration and its defaults.

use vstd::prelude::*;
use crate::huggingface::{default_blocked_keywords, SearchFiltersConfig};
use crate::keyed::views_of;
use crate::text::string_from;

verus! {

/// Where the API listens.
pub struct ServerConfig {
    pub host: String,
    pub port: u16,
    pub enable_cors: bool,
}

impl Default for ServerConfig {
    /// `127.0.0.1:14567`, with CORS enabled.
    fn default() -> (r: Self)
        ensures
            r.host@ == "127.0.0.1"@,
            r.port == 14567,
            r.enable_cors,
    {
        ServerConfig { host: string_from("127.0.0.1"), port: 14567, enable_cors: true }
    }
}

/// Where models are kept.
pub struct ModelsConfig {
    pub directory: String,
    pub auto_load_last_model: bool,
}

impl Default for ModelsConfig {
    /// `./models`, without loading the last model at start-up.
    fn default() -> (r: Self)
        ensures
            r.directory@ == "./models"@,
            !r.auto_load_last_model,
    {
        ModelsConfig { directory: string_from("./models"), auto_load_last_model: false }
    }
}

/// The backend used by default, and when idle models are unloaded.
pub struct RuntimeConfig {
    pub default_backend: String,
    pub idle_unload_minutes: u32,
}

impl Default for RuntimeConfig {
    /// The mock backend; idle models unloaded after 30 minutes.
    fn default() -> (r: Self)
        ensures
            r.default_backend@ == "mock"@,
            r.idle_unload_minutes == 30,
    {
        RuntimeConfig { default_backend: string_from("mock"), idle_unload_minutes: 30 }
    }
}

/// How many downloads run at once.
pub struct DownloadsConfig {
    pub max_parallel: usize,
}

impl Default for DownloadsConfig {
    /// Two downloads at once.
    fn default() -> (r: Self)
        ensures
            r.max_parallel == 2,
    {
        DownloadsConfig { max_parallel: 2 }
    }
}

/// The whole configuration.
pub struct DeepLocalConfig {
    pub server: ServerConfig,
    pub models: ModelsConfig,
    pub runtime: RuntimeConfig,
    pub downloads: DownloadsConfig,
    pub search_filters: SearchFiltersConfig,
}

impl Default for DeepLocalConfig {
    /// Every part at its default.
    fn default() -> (r: Self)
        ensures
            r.server.host@ == "127.0.0.1"@ && r.server.port == 14567 && r.server.enable_cors,
            r.models.directory@ == "./models"@ && !r.models.auto_load_last_model,
            r.runtime.default_backend@ == "mock"@ && r.runtime.idle_unload_minutes == 30,
            r.downloads.max_parallel == 2,
            views_of(r.search_filters.blocked_keywords@) == default_blocked_keywords(),
    {
        DeepLocalConfig {
            server: ServerConfig::default(),
            models: ModelsConfig::default(),
            runtime: RuntimeConfig::default(),
            downloads: DownloadsConfig::default(),
            search_filters: SearchFiltersConfig::default(),
        }
    }
}

/// The number of recent tokens the repetition penalty looks at, by default.
pub fn default_repeat_last_n() -> (r: i32)
    ensures
        r == 256,
{
    256
}

/// Binding to every interface (`0.0.0.0`, `::` or `[::]`) exposes the API to
/// the network, which deserves a warning.
pub fn is_public_bind(host: &str) -> (r: bool)
    ensures
        r == (host@ == "0.0.0.0"@ || host@ == "::"@ || host@ == "[::]"@),
{
    crate::text::str_eq(host, "0.0.0.0") || crate::text::str_eq(host, "::")
        || crate::text::str_eq(host, "[::]")
}

} // verus!
