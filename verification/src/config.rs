//! The server's settings: what each environment setting defaults to, and
//! the decisions made from them.
use vstd::prelude::*;
use crate::text::{chars_of, chars_equal, string_from_chars};
use crate::net::{IpRange, parse_trusted_proxies, trusted_proxies_of};
use crate::geo::IpSearcher;

verus! {

/// The settings as the environment gives them; each is absent when unset.
pub struct EnvSettings {
    pub listen_address: Option<String>,
    pub admin_password: Option<String>,
    pub site_name: Option<String>,
    pub server_url: Option<String>,
    pub enable_apply: Option<String>,
    pub ip2region_v4_db: Option<String>,
    pub ip2region_v6_db: Option<String>,
    pub trusted_proxies: Option<String>,
}

/// The server's configuration.
pub struct Config {
    pub database_url: String,
    /// The address to listen on, as written (`host:port`).
    pub listen_address: String,
    pub admin_password: String,
    pub site_name: String,
    pub server_url: String,
    pub enable_apply: bool,
    pub ip2region_v4_path: String,
    pub ip2region_v6_path: String,
    pub trusted_proxies: Option<Vec<IpRange>>,
}

/// A setting's value, or the default when it is unset.
pub open spec fn setting_or(s: Option<String>, default: Seq<char>) -> Seq<char> {
    match s {
        Some(v) => v@,
        None => default,
    }
}

fn value_or(s: Option<String>, default: &str) -> (res: String)
    ensures
        res@ == setting_or(s, default@),
{
    match s {
        Some(v) => v,
        None => string_from_chars(&chars_of(default)),
    }
}

/// The password used when none is set.
pub open spec fn default_password() -> Seq<char> {
    "fake-admin-password"@
}

impl Config {
    /// The configuration from the database URL and the other settings:
    /// unset settings take their defaults, applications are open only when
    /// `ENABLE_APPLY` is exactly `true`, and the trusted proxies are those
    /// the setting lists (none when it is unset).
    pub fn from_settings(database_url: String, env: EnvSettings) -> (res: Config)
        ensures
            res.database_url@ == database_url@,
            res.listen_address@ == setting_or(env.listen_address, "127.0.0.1:3000"@),
            res.admin_password@ == setting_or(env.admin_password, default_password()),
            res.site_name@ == setting_or(env.site_name, "Bench.im"@),
            res.server_url@ == setting_or(env.server_url, "https://your-server.fake-url"@),
            res.enable_apply == (env.enable_apply matches Some(v) && v@ == "true"@),
            res.ip2region_v4_path@ == setting_or(env.ip2region_v4_db, "server/ip2region_v4.xdb"@),
            res.ip2region_v6_path@ == setting_or(env.ip2region_v6_db, "server/ip2region_v6.xdb"@),
            match env.trusted_proxies {
                Some(v) => match trusted_proxies_of(v@) {
                    Some(rs) => res.trusted_proxies matches Some(list) && list@ == rs,
                    None => res.trusted_proxies is None,
                },
                None => res.trusted_proxies is None,
            },
            res.trusted_proxies matches Some(list) ==> forall|i: int|
                0 <= i < list@.len() ==> (#[trigger] list@[i]).well_formed(),
    {
        let enable_apply = match &env.enable_apply {
            Some(v) => chars_equal(&chars_of(v.as_str()), &chars_of("true")),
            None => false,
        };
        let trusted_proxies = match &env.trusted_proxies {
            Some(v) => parse_trusted_proxies(v.as_str()),
            None => None,
        };
        Config {
            database_url,
            listen_address: value_or(env.listen_address, "127.0.0.1:3000"),
            admin_password: value_or(env.admin_password, "fake-admin-password"),
            site_name: value_or(env.site_name, "Bench.im"),
            server_url: value_or(env.server_url, "https://your-server.fake-url"),
            enable_apply,
            ip2region_v4_path: value_or(env.ip2region_v4_db, "server/ip2region_v4.xdb"),
            ip2region_v6_path: value_or(env.ip2region_v6_db, "server/ip2region_v6.xdb"),
            trusted_proxies,
        }
    }

    /// Whether the administrator password is still the default one.
    pub fn uses_default_password(&self) -> (r: bool)
        ensures
            r == (self.admin_password@ == default_password()),
    {
        chars_equal(&chars_of(self.admin_password.as_str()), &chars_of("fake-admin-password"))
    }

    /// Whether `password` is the administrator password.
    pub fn verify_admin(&self, password: &str) -> (r: bool)
        ensures
            r == (self.admin_password@ == password@),
    {
        chars_equal(&chars_of(self.admin_password.as_str()), &chars_of(password))
    }

    /// Whether applications are open: enabled in the settings, and a region
    /// database is loaded to locate applicants.
    pub fn apply_enabled(&self, searcher: &IpSearcher) -> (r: bool)
        ensures
            r == (self.enable_apply && (searcher.v4 is Some || searcher.v6 is Some)),
    {
        self.enable_apply && searcher.is_available()
    }
}

} // verus!
