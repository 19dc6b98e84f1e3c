//! Server configuration.

use crate::text::opt_view;
use vstd::prelude::*;

verus! {

#[derive(Debug, PartialEq, Eq)]
pub struct Config {
    pub bind: String,
    /// Shared bearer token. Required: an empty token fails every request
    /// rather than opening the service.
    pub token: String,
    pub model_dir: String,
    /// Unload models after this many seconds with no active session.
    pub idle_unload_secs: u64,
    /// Refuse to load a model if doing so would leave less than this much VRAM
    /// (MiB) free for other tenants on the GPU.
    pub vram_floor_mib: u64,
    /// Maximum concurrent streaming sessions. Sessions beyond this are refused
    /// rather than degrading everyone already connected.
    pub max_sessions: usize,
}

/// What a configuration file says.
pub struct Written {
    pub bind: Option<String>,
    pub token: Option<String>,
    pub model_dir: Option<String>,
    pub idle_unload_secs: Option<u64>,
    pub vram_floor_mib: Option<u64>,
    pub max_sessions: Option<usize>,
}

pub fn default_bind() -> (r: String)
    ensures
        r@ == "0.0.0.0:8770"@,
{
    "0.0.0.0:8770".to_owned()
}

pub fn default_idle_unload() -> (r: u64)
    ensures
        r == 600,
{
    600
}

pub fn default_vram_floor() -> (r: u64)
    ensures
        r == 1536,
{
    1536
}

pub fn default_max_sessions() -> (r: usize)
    ensures
        r == 4,
{
    4
}

pub open spec fn or_else<T>(x: Option<T>, default: T) -> T {
    match x {
        Some(v) => v,
        None => default,
    }
}

impl Config {
    /// A configuration from what a file says, with the defaults filled in.
    ///
    /// A missing token is a hard error: better to refuse to start than to start
    /// unauthenticated.
    pub fn from_written(w: Written) -> (r: Result<Config, String>)
        ensures
            match (r, w.token, w.model_dir) {
                (Ok(c), Some(token), Some(model_dir)) => {
                    &&& c.token == token
                    &&& c.model_dir == model_dir
                    &&& c.bind@ == or_else(opt_view(w.bind), "0.0.0.0:8770"@)
                    &&& c.idle_unload_secs == or_else(w.idle_unload_secs, 600)
                    &&& c.vram_floor_mib == or_else(w.vram_floor_mib, 1536)
                    &&& c.max_sessions == or_else(w.max_sessions, 4)
                },
                (Err(e), None, _) => e@ == "missing field `token`"@,
                (Err(e), Some(_), None) => e@ == "missing field `model_dir`"@,
                _ => false,
            },
    {
        let token = match w.token {
            Some(t) => t,
            None => {
                return Err("missing field `token`".to_owned());
            },
        };
        let model_dir = match w.model_dir {
            Some(d) => d,
            None => {
                return Err("missing field `model_dir`".to_owned());
            },
        };
        Ok(
            Config {
                bind: match w.bind {
                    Some(b) => b,
                    None => default_bind(),
                },
                token,
                model_dir,
                idle_unload_secs: match w.idle_unload_secs {
                    Some(n) => n,
                    None => default_idle_unload(),
                },
                vram_floor_mib: match w.vram_floor_mib {
                    Some(n) => n,
                    None => default_vram_floor(),
                },
                max_sessions: match w.max_sessions {
                    Some(n) => n,
                    None => default_max_sessions(),
                },
            },
        )
    }
}

/// The file the server reads its configuration from: the one named on the
/// command line, or `config.toml`.
pub fn config_file(arg: &Option<String>) -> (r: String)
    ensures
        r@ == or_else(opt_view(*arg), "config.toml"@),
{
    match arg {
        Some(p) => p.clone(),
        None => "config.toml".to_owned(),
    }
}

} // verus!
