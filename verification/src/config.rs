//! Settings of the service, and what they default to.

use crate::text::{strip_back, trim_end, Strip};
use vstd::prelude::*;

verus! {

#[derive(Debug, Clone)]
pub struct Config {
    pub db_path: String,
    pub listen: String,
    /// Where clients reach omni, e.g. "https://omni.example.tld". Baked into
    /// the served install.sh and the printed enrollment one-liners.
    pub public_url: String,
    pub port_start: u16,
    pub rathole: RatholeCfg,
    pub termix: Option<TermixCfg>,
    pub herdr: HerdrCfg,
}

#[derive(Debug, Clone)]
pub struct RatholeCfg {
    /// The server.toml omni owns. Written in place: rathole's config watcher
    /// ignores symlinks, so this must be the real file.
    pub config_path: String,
    /// What the rathole server binds, e.g. "0.0.0.0:2333".
    pub bind_addr: String,
    /// What enrolled clients dial, e.g. "omni.example.tld:2333".
    pub remote_addr: String,
    /// Version pin; re-running enroll or `omni update` upgrades clients to it.
    pub version: String,
}

#[derive(Debug, Clone)]
pub struct TermixCfg {
    /// Termix base URL as reached from the VPS, e.g. "http://127.0.0.1:8090".
    pub url: String,
    pub api_key: String,
    /// Seconds without a heartbeat before a machine is marked down in Termix.
    pub stale_after_secs: i64,
}

#[derive(Debug, Clone)]
pub struct HerdrCfg {
    /// Piped to sh by `install.sh --with-herdr`; set "" to disable the offer.
    pub install_url: String,
}

impl Default for HerdrCfg {
    fn default() -> (h: HerdrCfg)
        ensures
            h.install_url@ == "https://herdr.dev/install.sh"@,
    {
        HerdrCfg { install_url: d_herdr_url() }
    }
}

/// The official installer of Herdr.
pub fn d_herdr_url() -> (s: String)
    ensures
        s@ == "https://herdr.dev/install.sh"@,
{
    "https://herdr.dev/install.sh".to_owned()
}

pub fn d_db_path() -> (s: String)
    ensures
        s@ == "/var/lib/omni/omni.db"@,
{
    "/var/lib/omni/omni.db".to_owned()
}

pub fn d_listen() -> (s: String)
    ensures
        s@ == "127.0.0.1:8070"@,
{
    "127.0.0.1:8070".to_owned()
}

pub fn d_port_start() -> (n: u16)
    ensures
        n == 2201,
{
    2201
}

pub fn d_rathole_config() -> (s: String)
    ensures
        s@ == "/etc/rathole/server.toml"@,
{
    "/etc/rathole/server.toml".to_owned()
}

pub fn d_rathole_bind() -> (s: String)
    ensures
        s@ == "0.0.0.0:2333"@,
{
    "0.0.0.0:2333".to_owned()
}

pub fn d_rathole_version() -> (s: String)
    ensures
        s@ == "0.5.0"@,
{
    "0.5.0".to_owned()
}

pub fn d_stale_after() -> (n: i64)
    ensures
        n == 900,
{
    900
}

impl Config {
    pub open spec fn trimmed_url(&self) -> Seq<char> {
        strip_back(self.public_url@, Strip::Only('/'))
    }

    /// The public URL without slashes at its end.
    pub fn public_url_trimmed(&self) -> (r: &str)
        ensures
            r@ == self.trimmed_url(),
    {
        trim_end(self.public_url.as_str(), Strip::Only('/'))
    }
}

} // verus!
