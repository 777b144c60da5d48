//! Process-wide configuration, constructed once at startup and passed by
//! reference into every component constructor.

use vstd::prelude::*;
use vstd::string::StringExecFns;
use crate::text::{dec_chars, push_u64_dec};

verus! {

/// The immutable configuration value the whole service runs under.
#[derive(Clone, Debug)]
pub struct Config {
    pub database_url: String,
    pub jwt_secret: String,
    pub jwt_expiration: i64,
    pub server_host: String,
    pub server_port: u16,
    pub cors_origin: String,
    pub rom_storage_path: String,
    pub save_storage_path: String,
    pub max_rom_size_mb: usize,
    pub rate_limit_per_minute: usize,
}

impl Config {
    /// The `host:port` address the server binds to.
    pub fn server_address(&self) -> (r: String)
        ensures
            r@ == self.server_host@ + ":"@ + dec_chars(self.server_port as nat),
    {
        let mut s = self.server_host.clone();
        s.append(":");
        push_u64_dec(&mut s, self.server_port as u64);
        assert(s@ =~= self.server_host@ + ":"@ + dec_chars(self.server_port as nat));
        s
    }
}

} // verus!
