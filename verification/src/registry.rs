//! The schema registry poller, without its clock, its HTTP client and its
//! file: how the configuration is resolved, what a response means for the
//! cached entity tag, and when the schema file is replaced.

use vstd::prelude::*;
use vstd::string::*;
use crate::digest::{sha256_hex, sha256_hex_digest};
use crate::registry_logger::Logger;
use crate::text::{eq_ignore_ascii_case, owned, parse_u64, prefixed, same_text};

verus! {

/// What the embedding program configures explicitly.
#[derive(Debug)]
pub struct HiveRegistryConfig {
    pub endpoint: Option<String>,
    pub key: Option<String>,
    pub poll_interval: Option<u64>,
    pub accept_invalid_certs: Option<bool>,
    pub schema_file_path: Option<String>,
}

/// The values of the environment variables of the registry, as they were
/// read: `HIVE_CDN_ENDPOINT`, `HIVE_CDN_KEY`, `HIVE_CDN_POLL_INTERVAL`,
/// `HIVE_CDN_ACCEPT_INVALID_CERTS` and `HIVE_CDN_SCHEMA_FILE_PATH`.
#[derive(Debug)]
pub struct RegistryEnvironment {
    pub endpoint: Option<String>,
    pub key: Option<String>,
    pub poll_interval: Option<String>,
    pub accept_invalid_certs: Option<String>,
    pub schema_file_path: Option<String>,
}

/// The state of the poller. Only `etag` changes while it runs.
#[derive(Debug)]
pub struct HiveRegistry {
    pub endpoint: String,
    pub key: String,
    pub file_name: String,
    pub etag: Option<String>,
    pub accept_invalid_certs: bool,
    pub poll_interval: u64,
    pub logger: Logger,
}

/// Why the registry could not be set up.
#[derive(Debug, PartialEq, Eq)]
pub enum RegistryError {
    /// The endpoint is missing while a key is given.
    EndpointMissing,
    /// The key is missing while an endpoint is given.
    KeyMissing,
    /// The poll interval of the environment is not a number.
    PollIntervalInvalid,
}

/// The number of seconds between two polls where none is configured.
pub const DEFAULT_POLL_INTERVAL: u64 = 10;

/// The view of an optional string.
pub open spec fn text_of(o: Option<String>) -> Option<Seq<char>> {
    match o {
        Some(s) => Some(s@),
        None => None,
    }
}

/// The explicit value, or else the one of the environment.
pub open spec fn first_text(explicit: Option<Seq<char>>, env: Option<Seq<char>>) -> Option<Seq<char>> {
    match explicit {
        Some(s) => Some(s),
        None => env,
    }
}

/// A text, or the empty text where there is none.
pub open spec fn text_or_empty(o: Option<Seq<char>>) -> Seq<char> {
    match o {
        Some(s) => s,
        None => Seq::empty(),
    }
}

/// Whether a text of the environment switches a flag on: `1`, or `true` or
/// `on` in any ASCII case.
pub open spec fn flag_text(s: Seq<char>) -> bool {
    s == "1"@ || crate::text::same_ignoring_ascii_case(s, "true"@) || crate::text::same_ignoring_ascii_case(
        s,
        "on"@,
    )
}

/// The endpoint of the explicit configuration.
pub open spec fn explicit_endpoint(c: Option<HiveRegistryConfig>) -> Option<Seq<char>> {
    match c {
        Some(c) => text_of(c.endpoint),
        None => None,
    }
}

/// The key of the explicit configuration.
pub open spec fn explicit_key(c: Option<HiveRegistryConfig>) -> Option<Seq<char>> {
    match c {
        Some(c) => text_of(c.key),
        None => None,
    }
}

/// The path of the schema file of the explicit configuration.
pub open spec fn explicit_path(c: Option<HiveRegistryConfig>) -> Option<Seq<char>> {
    match c {
        Some(c) => text_of(c.schema_file_path),
        None => None,
    }
}

/// The poll interval of the explicit configuration.
pub open spec fn explicit_interval(c: Option<HiveRegistryConfig>) -> Option<u64> {
    match c {
        Some(c) => c.poll_interval,
        None => None,
    }
}

/// Whether the explicit configuration accepts invalid certificates.
pub open spec fn explicit_certs(c: Option<HiveRegistryConfig>) -> Option<bool> {
    match c {
        Some(c) => c.accept_invalid_certs,
        None => None,
    }
}

/// The endpoint in force.
pub open spec fn resolved_endpoint(c: Option<HiveRegistryConfig>, env: RegistryEnvironment) -> Seq<char> {
    text_or_empty(first_text(explicit_endpoint(c), text_of(env.endpoint)))
}

/// The key in force.
pub open spec fn resolved_key(c: Option<HiveRegistryConfig>, env: RegistryEnvironment) -> Seq<char> {
    text_or_empty(first_text(explicit_key(c), text_of(env.key)))
}

/// The poll interval in force, unless the environment states one that is
/// not a number.
pub open spec fn resolved_interval(c: Option<HiveRegistryConfig>, env: RegistryEnvironment) -> Option<u64> {
    match explicit_interval(c) {
        Some(n) => Some(n),
        None => match env.poll_interval {
            Some(s) => crate::text::decimal_u64(s@),
            None => Some(DEFAULT_POLL_INTERVAL),
        },
    }
}

/// Whether invalid certificates are accepted.
pub open spec fn resolved_certs(c: Option<HiveRegistryConfig>, env: RegistryEnvironment) -> bool {
    match explicit_certs(c) {
        Some(b) => b,
        None => match env.accept_invalid_certs {
            Some(s) => flag_text(s@),
            None => false,
        },
    }
}

/// The path of the schema file in force.
pub open spec fn resolved_path(c: Option<HiveRegistryConfig>, env: RegistryEnvironment) -> Seq<char> {
    match first_text(explicit_path(c), text_of(env.schema_file_path)) {
        Some(s) => s,
        None => "supergraph-schema.graphql"@,
    }
}

/// What setting up the registry yields: a failure where the poll interval
/// of the environment is needed and is not a number, nothing to run where
/// neither endpoint nor key is given, a failure where exactly one of them
/// is given, and else the state of the poller.
pub open spec fn startup(c: Option<HiveRegistryConfig>, env: RegistryEnvironment) -> Result<Option<()>, RegistryError> {
    if resolved_interval(c, env) is None {
        Err(RegistryError::PollIntervalInvalid)
    } else if resolved_endpoint(c, env).len() == 0 && resolved_key(c, env).len() == 0 {
        Ok(None)
    } else if resolved_endpoint(c, env).len() == 0 {
        Err(RegistryError::EndpointMissing)
    } else if resolved_key(c, env).len() == 0 {
        Err(RegistryError::KeyMissing)
    } else {
        Ok(Some(()))
    }
}

/// Where neither the explicit configuration nor the environment gives an
/// endpoint or a key, there is nothing to run, and that is no failure.
pub proof fn lemma_nothing_runs_without_endpoint_and_key(c: Option<HiveRegistryConfig>, env: RegistryEnvironment)
    requires
        resolved_interval(c, env) is Some,
        text_or_empty(explicit_endpoint(c)).len() == 0,
        text_or_empty(explicit_key(c)).len() == 0,
        text_or_empty(text_of(env.endpoint)).len() == 0,
        text_or_empty(text_of(env.key)).len() == 0,
    ensures
        startup(c, env) == Ok::<Option<()>, RegistryError>(None),
{
    assert(resolved_endpoint(c, env).len() == 0);
    assert(resolved_key(c, env).len() == 0);
}

/// Where the poll interval is left to the environment and the environment
/// states one that is not a number, the registry is not set up.
pub proof fn lemma_unreadable_interval_fails(c: Option<HiveRegistryConfig>, env: RegistryEnvironment)
    requires
        explicit_interval(c) is None,
        env.poll_interval matches Some(s) && crate::text::decimal_u64(s@) is None,
    ensures
        startup(c, env) == Err::<Option<()>, RegistryError>(RegistryError::PollIntervalInvalid),
{
}

/// The entity tag header of a response.
#[derive(Debug)]
pub enum EntityTag {
    /// The response has no such header.
    Absent,
    /// The header and its text.
    Text(String),
    /// The header is there but is no text; the failure is described.
    Unreadable(String),
}

/// Whether a text of the environment switches a flag on.
pub fn is_flag_on(s: &str) -> (r: bool)
    ensures
        r == flag_text(s@),
{
    same_text(s, "1") || eq_ignore_ascii_case(s, "true") || eq_ignore_ascii_case(s, "on")
}

fn first_of(explicit: Option<String>, env: Option<String>) -> (r: Option<String>)
    ensures
        text_of(r) == first_text(text_of(explicit), text_of(env)),
{
    match explicit {
        Some(s) => Some(s),
        None => env,
    }
}

impl HiveRegistry {
    /// Resolves the configuration, the explicit one before the environment,
    /// and sets the poller up as `startup` says. The new state has no entity
    /// tag yet.
    pub fn new(user_config: Option<HiveRegistryConfig>, env: RegistryEnvironment, logger: Logger) -> (r: Result<
        Option<HiveRegistry>,
        RegistryError,
    >)
        ensures
            match r {
                Ok(Some(registry)) => startup(user_config, env) == Ok::<Option<()>, RegistryError>(Some(()))
                    && registry.endpoint@ == resolved_endpoint(user_config, env) && registry.key@ == resolved_key(
                    user_config,
                    env,
                ) && registry.file_name@ == resolved_path(user_config, env) && registry.etag is None
                    && registry.accept_invalid_certs == resolved_certs(user_config, env) && Some(
                    registry.poll_interval,
                ) == resolved_interval(user_config, env) && registry.logger == logger,
                Ok(None) => startup(user_config, env) == Ok::<Option<()>, RegistryError>(None),
                Err(e) => startup(user_config, env) == Err::<Option<()>, RegistryError>(e),
            },
    {
        let config = match user_config {
            Some(c) => c,
            None => HiveRegistryConfig {
                endpoint: None,
                key: None,
                poll_interval: None,
                accept_invalid_certs: None,
                schema_file_path: None,
            },
        };
        let poll_interval: u64 = match config.poll_interval {
            Some(n) => n,
            None => match &env.poll_interval {
                Some(s) => match parse_u64(s.as_str()) {
                    Some(n) => n,
                    None => {
                        return Err(RegistryError::PollIntervalInvalid);
                    },
                },
                None => DEFAULT_POLL_INTERVAL,
            },
        };
        let accept_invalid_certs: bool = match config.accept_invalid_certs {
            Some(b) => b,
            None => match &env.accept_invalid_certs {
                Some(s) => is_flag_on(s.as_str()),
                None => false,
            },
        };
        let endpoint = match first_of(config.endpoint, env.endpoint) {
            Some(s) => s,
            None => String::new(),
        };
        let key = match first_of(config.key, env.key) {
            Some(s) => s,
            None => String::new(),
        };
        let endpoint_empty = endpoint.as_str().unicode_len() == 0;
        let key_empty = key.as_str().unicode_len() == 0;
        if endpoint_empty && key_empty {
            return Ok(None);
        }
        if endpoint_empty {
            return Err(RegistryError::EndpointMissing);
        }
        if key_empty {
            return Err(RegistryError::KeyMissing);
        }
        let file_name = match first_of(config.schema_file_path, env.schema_file_path) {
            Some(s) => s,
            None => owned("supergraph-schema.graphql"),
        };
        Ok(Some(HiveRegistry { endpoint, key, file_name, etag: None, accept_invalid_certs, poll_interval, logger }))
    }

    /// The address that the schema is fetched from.
    pub fn supergraph_url(&self) -> (r: String)
        ensures
            r@ == self.endpoint@ + "/supergraph"@,
    {
        prefixed(self.endpoint.as_str(), "/supergraph")
    }

    /// Replaces the cached entity tag.
    pub fn update_latest_etag(&mut self, etag: Option<String>)
        ensures
            final(self).etag == etag,
            final(self).endpoint == old(self).endpoint,
            final(self).key == old(self).key,
            final(self).file_name == old(self).file_name,
            final(self).accept_invalid_certs == old(self).accept_invalid_certs,
            final(self).poll_interval == old(self).poll_interval,
            final(self).logger == old(self).logger,
    {
        self.etag = etag;
    }

    /// Takes a response in. The cached entity tag becomes the one of the
    /// response, or none where the response has none. The result is the new
    /// schema text, or nothing where the status says that the schema has not
    /// changed. An unreadable entity tag fails, and so does an unreadable body.
    pub fn fetch_supergraph(&mut self, etag: EntityTag, status: u16, body: Result<String, String>) -> (r: Result<
        Option<String>,
        String,
    >)
        ensures
            final(self).endpoint == old(self).endpoint,
            final(self).key == old(self).key,
            final(self).file_name == old(self).file_name,
            match etag {
                EntityTag::Unreadable(e) => r == Err::<Option<String>, String>(e) && final(self).etag == old(
                    self,
                ).etag,
                EntityTag::Text(t) => final(self).etag == Some(t),
                EntityTag::Absent => final(self).etag is None,
            },
            !(etag is Unreadable) ==> r == (if status == 304 {
                Ok::<Option<String>, String>(None)
            } else {
                match body {
                    Ok(text) => Ok::<Option<String>, String>(Some(text)),
                    Err(e) => Err::<Option<String>, String>(e),
                }
            }),
    {
        match etag {
            EntityTag::Unreadable(e) => {
                return Err(e);
            },
            EntityTag::Text(t) => {
                self.update_latest_etag(Some(t));
            },
            EntityTag::Absent => {
                self.update_latest_etag(None);
            },
        }
        if status == 304 {
            return Ok(None);
        }
        match body {
            Ok(text) => Ok(Some(text)),
            Err(e) => Err(e),
        }
    }

    /// The schema text that the first fetch must bring.
    pub fn initial_supergraph(fetched: Option<String>) -> (r: Result<String, String>)
        ensures
            match fetched {
                Some(text) => r == Ok::<String, String>(text),
                None => r is Err && r->Err_0@ == "Failed to fetch supergraph"@,
            },
    {
        match fetched {
            Some(text) => Ok(text),
            None => Err(owned("Failed to fetch supergraph")),
        }
    }

    /// Whether a fetched schema replaces the file: it does when its digest
    /// differs from the digest of what the file holds.
    pub fn poll(current_file: &[u8], new_supergraph: &[u8]) -> (r: bool)
        ensures
            r == (sha256_hex(current_file@) != sha256_hex(new_supergraph@)),
            current_file@ == new_supergraph@ ==> !r,
    {
        let current = hash(current_file);
        let new = hash(new_supergraph);
        !(current == new)
    }
}

/// The SHA-256 digest of `bytes` in uppercase hexadecimal.
pub fn hash(bytes: &[u8]) -> (r: String)
    ensures
        r@ == sha256_hex(bytes@),
{
    sha256_hex_digest(bytes)
}

} // verus!
