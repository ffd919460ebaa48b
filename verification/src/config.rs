//! Process configuration: bind address, engine socket, metric cadence,
//! and the single admin credential with its session timeout.

use vstd::prelude::*;

use crate::credentials::hash_matches;
use crate::strutil::dec_rep;
use crate::strutil::u64_dec_chars;
use crate::strutil::chars_to_string;
use vstd::string::StringExecFns;

verus! {

/// The process configuration. Environment loading happens outside this
/// library; the defaults below stand in when a field is not supplied.
pub struct Config {
    /// Server host to bind to.
    pub host: String,
    /// Server port to bind to.
    pub port: u16,
    /// Log level for the application.
    pub log_level: String,
    /// Engine socket path; the platform default connection when absent.
    pub docker_socket: Option<String>,
    /// Metrics update interval in seconds.
    pub metrics_interval_seconds: u64,
    /// Maximum number of metrics history points to keep.
    pub metrics_history_limit: usize,
    /// Graceful shutdown timeout in seconds.
    pub shutdown_timeout_seconds: u64,
    /// Whether the access gate is active.
    pub auth_enabled: bool,
    /// The single admin account name.
    pub auth_username: String,
    /// An explicitly configured plaintext password, if any.
    pub auth_password: Option<String>,
    /// The stored self-describing password hash; nothing can verify
    /// until provisioning fills it.
    pub auth_password_hash: Option<String>,
    /// Inactivity timeout for sessions, in seconds.
    pub session_timeout_seconds: u64,
}

/// Whether `pw` is accepted for this configuration: false whenever no
/// hash is provisioned (verification fails closed), and otherwise
/// exactly when the password verifies against the stored hash.
pub open spec fn spec_password_ok(c: &Config, pw: Seq<char>) -> bool {
    match c.auth_password_hash {
        Some(h) => hash_matches(pw, h@),
        None => false,
    }
}

pub fn default_host() -> (r: String)
    ensures
        r@ == "0.0.0.0"@,
{
    String::from_str("0.0.0.0")
}

pub fn default_port() -> (r: u16)
    ensures
        r == 3000,
{
    3000
}

pub fn default_log_level() -> (r: String)
    ensures
        r@ == "info"@,
{
    String::from_str("info")
}

pub fn default_metrics_interval() -> (r: u64)
    ensures
        r == 5,
{
    5
}

pub fn default_metrics_history() -> (r: usize)
    ensures
        r == 20,
{
    20
}

pub fn default_shutdown_timeout() -> (r: u64)
    ensures
        r == 30,
{
    30
}

impl Default for Config {
    /// The defaults: bind everywhere on port 3000, quiet logging, the
    /// platform engine socket, and authentication active for user `admin`
    /// with an hour of session inactivity allowed.
    fn default() -> (c: Config)
        ensures
            c.host@ == "0.0.0.0"@,
            c.port == 3000,
            c.log_level@ == "info"@,
            c.docker_socket is None,
            c.metrics_interval_seconds == 5,
            c.metrics_history_limit == 20,
            c.shutdown_timeout_seconds == 30,
            c.auth_enabled == true,
            c.auth_username@ == "admin"@,
            c.auth_password is None,
            c.auth_password_hash is None,
            c.session_timeout_seconds == 3600,
    {
        Config {
            host: default_host(),
            port: default_port(),
            log_level: default_log_level(),
            docker_socket: None,
            metrics_interval_seconds: default_metrics_interval(),
            metrics_history_limit: default_metrics_history(),
            shutdown_timeout_seconds: default_shutdown_timeout(),
            auth_enabled: true,
            auth_username: String::from_str("admin"),
            auth_password: None,
            auth_password_hash: None,
            session_timeout_seconds: 3600,
        }
    }
}

impl Config {
    /// The full bind address, `host:port` with the port in decimal.
    pub fn bind_address(&self) -> (r: String)
        ensures
            r@ == self.host@ + ":"@ + dec_rep(self.port as nat),
    {
        let mut out = self.host.clone();
        out.append(":");
        let digits = u64_dec_chars(self.port as u64);
        let digit_str = chars_to_string(&digits);
        out.append(digit_str.as_str());
        out
    }

    /// Verifies a login password against the stored hash; fails closed
    /// when no hash is provisioned.
    pub fn verify_password(&self, password: &str) -> (r: bool)
        ensures
            r == spec_password_ok(self, password@),
    {
        match &self.auth_password_hash {
            Some(h) => crate::credentials::phc_verify(password, h.as_str()),
            None => false,
        }
    }
}

/// Verification accepts a password exactly when a hash is provisioned
/// and the password verifies against it; with no hash it always fails.
pub proof fn lemma_verify_fails_closed(c: &Config, pw: Seq<char>)
    ensures
        spec_password_ok(c, pw) <==> (c.auth_password_hash matches Some(h) && hash_matches(
            pw,
            h@,
        )),
        c.auth_password_hash is None ==> !spec_password_ok(c, pw),
{
}

} // verus!
