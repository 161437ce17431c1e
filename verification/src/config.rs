//! What the proxy is configured with, as far as it decides anything.

use vstd::prelude::*;
use vstd::string::StringExecFns;

verus! {

/// How much the proxy logs.
#[derive(Clone, Copy, Debug, PartialEq, Eq, Structural)]
pub enum ConfigLevelFilter {
    Off,
    Error,
    Warn,
    Info,
    Debug,
    Trace,
}

/// What `str::to_lowercase` makes of `text`.
pub uninterp spec fn lowercase(text: Seq<char>) -> Seq<char>;

/// Calls `str::to_lowercase`, which gives the text in lower case as Unicode defines it.
#[verifier::external_body]
fn to_lowercase(text: &str) -> (lower: String)
    ensures
        lower@ == lowercase(text@),
{
    text.to_lowercase()
}

/// The level that `name` names, written in lower case.
pub open spec fn level_named(name: Seq<char>) -> Option<ConfigLevelFilter> {
    if name == "off"@ {
        Some(ConfigLevelFilter::Off)
    } else if name == "error"@ {
        Some(ConfigLevelFilter::Error)
    } else if name == "warn"@ {
        Some(ConfigLevelFilter::Warn)
    } else if name == "info"@ {
        Some(ConfigLevelFilter::Info)
    } else if name == "debug"@ {
        Some(ConfigLevelFilter::Debug)
    } else if name == "trace"@ {
        Some(ConfigLevelFilter::Trace)
    } else {
        None
    }
}

/// Whether two texts are the same.
fn same_text(a: &str, b: &str) -> (same: bool)
    ensures
        same == (a@ == b@),
{
    String::from_str(a) == String::from_str(b)
}

impl ConfigLevelFilter {
    /// The level that `name` names, written in lower case.
    pub fn from_lowercase(name: &str) -> (level: Option<Self>)
        ensures
            level == level_named(name@),
    {
        if same_text(name, "off") {
            Some(ConfigLevelFilter::Off)
        } else if same_text(name, "error") {
            Some(ConfigLevelFilter::Error)
        } else if same_text(name, "warn") {
            Some(ConfigLevelFilter::Warn)
        } else if same_text(name, "info") {
            Some(ConfigLevelFilter::Info)
        } else if same_text(name, "debug") {
            Some(ConfigLevelFilter::Debug)
        } else if same_text(name, "trace") {
            Some(ConfigLevelFilter::Trace)
        } else {
            None
        }
    }

    /// The level that `name` names in any mix of upper and lower case.
    pub fn parse(name: &str) -> (level: Option<Self>)
        ensures
            level == level_named(lowercase(name@)),
    {
        let lower = to_lowercase(name);
        Self::from_lowercase(lower.as_str())
    }
}

/// Where the forwarding secret is taken from.
#[derive(Clone, Copy, Debug, PartialEq, Eq, Structural)]
pub enum SecretSource {
    /// From the configuration file.
    Config,
    /// From the environment. `overrides_config` says that the file names a secret too, which is
    /// not used.
    Environment { overrides_config: bool },
}

/// Where the secret is taken from when the file holds `configured` and the environment holds
/// `environment`: a secret that is not empty counts, and the environment goes first. `None`
/// where neither holds one.
pub open spec fn secret_source(configured: Seq<char>, environment: Option<Seq<char>>) -> Option<
    SecretSource,
> {
    if environment is Some && environment->0.len() > 0 {
        Some(SecretSource::Environment { overrides_config: configured.len() > 0 })
    } else if configured.len() > 0 {
        Some(SecretSource::Config)
    } else {
        None
    }
}

/// Says where the forwarding secret is taken from, if there is one.
pub fn choose_secret(configured: &str, environment: Option<&str>) -> (source: Option<SecretSource>)
    ensures
        source == secret_source(
            configured@,
            match environment {
                Some(secret) => Some(secret@),
                None => None,
            },
        ),
{
    match (!configured.is_empty(), environment) {
        (false, None) => None,
        (true, None) => Some(SecretSource::Config),
        (false, Some(secret)) => {
            if secret.is_empty() {
                None
            } else {
                Some(SecretSource::Environment { overrides_config: false })
            }
        },
        (true, Some(secret)) => {
            if !secret.is_empty() {
                Some(SecretSource::Environment { overrides_config: true })
            } else {
                Some(SecretSource::Config)
            }
        },
    }
}

/// The address of a peer, as its bits.
#[derive(Clone, Copy, Debug, PartialEq, Eq, Structural)]
pub enum IpAddress {
    V4(u32),
    V6(u128),
}

/// Whether a client from `peer` may log in: every peer where no address is named as trusted,
/// and otherwise the named ones.
pub fn is_trusted(trusted_ips: &[IpAddress], peer: IpAddress) -> (trusted: bool)
    ensures
        trusted == (trusted_ips@.len() == 0 || trusted_ips@.contains(peer)),
{
    if trusted_ips.len() == 0 {
        return true;
    }
    let mut i: usize = 0;
    while i < trusted_ips.len()
        invariant
            i <= trusted_ips.len(),
            forall|j: int| 0 <= j < i ==> trusted_ips@[j] != peer,
        decreases trusted_ips.len() - i,
    {
        if trusted_ips[i] == peer {
            return true;
        }
        i = i + 1;
    }
    false
}

} // verus!
