//! The host hook: the configuration of usage reporting with its defaults,
//! and the decision whether an execution is reported.
//!
//! A sample rate and a random draw are held by the bit patterns of their
//! IEEE 754 doubles. Among doubles that are not negative and not NaN, the one
//! with the smaller bit pattern is the smaller number.

use vstd::prelude::*;
use crate::agent::{ExecutionReport, text_view};
use crate::context::{GraphQLHiveContext, HiveInternalContext};
use crate::text::{contains_string, owned, views};

verus! {

/// The bit pattern of `1.0`.
pub const ONE_BITS: u64 = 0x3FF0_0000_0000_0000;

/// The bit pattern of positive infinity, the largest pattern of a double
/// that is not negative and not NaN.
pub const INFINITY_BITS: u64 = 0x7FF0_0000_0000_0000;

/// The endpoint that reports go to where none is configured.
pub open spec fn default_endpoint() -> Seq<char> {
    "https://app.graphql-hive.com/usage"@
}

/// The configuration of usage reporting.
#[derive(Debug)]
pub struct UsageConfig {
    pub enabled: bool,
    pub token: String,
    pub endpoint: String,
    /// The bit pattern of the sample rate.
    pub sample_rate: u64,
    pub exclude: Vec<String>,
    pub buffer_size: usize,
    pub connect_timeout: u64,
    pub request_timeout: u64,
    pub accept_invalid_certs: bool,
}

/// What the host may configure; every field is optional.
#[derive(Debug)]
pub struct Config {
    pub enabled: Option<bool>,
    /// The bit pattern of the sample rate.
    pub sample_rate: Option<u64>,
    pub exclude: Option<Vec<String>>,
    pub client_name_header: Option<String>,
    pub client_version_header: Option<String>,
    pub buffer_size: Option<usize>,
    pub connect_timeout: Option<u64>,
    pub request_timeout: Option<u64>,
    pub accept_invalid_certs: Option<bool>,
}

/// What the hook needs of the configuration for each request.
#[derive(Debug)]
pub struct OperationConfig {
    /// The bit pattern of the sample rate.
    pub sample_rate: u64,
    pub exclude: Vec<String>,
    pub client_name_header: String,
    pub client_version_header: String,
}

/// The extension of the host, which holds the configuration.
#[derive(Debug)]
pub struct GraphQLHive {
    pub usage: UsageConfig,
}

impl UsageConfig {
    /// The configuration with every default in place: enabled, every
    /// execution sampled, nothing excluded, a buffer of 1000 records, 5
    /// seconds to connect and 15 seconds for a request, invalid certificates
    /// refused, and the public endpoint where none is given.
    pub fn new(token: String, endpoint: Option<String>) -> (r: UsageConfig)
        ensures
            r.enabled,
            r.token == token,
            r.endpoint@ == match endpoint {
                Some(e) => e@,
                None => default_endpoint(),
            },
            r.sample_rate == ONE_BITS,
            r.exclude@.len() == 0,
            r.buffer_size == 1000,
            r.connect_timeout == 5,
            r.request_timeout == 15,
            !r.accept_invalid_certs,
    {
        UsageConfig {
            enabled: true,
            token,
            endpoint: match endpoint {
                Some(e) => e,
                None => owned("https://app.graphql-hive.com/usage"),
            },
            sample_rate: ONE_BITS,
            exclude: Vec::new(),
            buffer_size: 1000,
            connect_timeout: 5,
            request_timeout: 15,
            accept_invalid_certs: false,
        }
    }
}

impl Config {
    /// Whether reporting is enabled; it is unless the host says otherwise.
    pub fn enabled(&self) -> (r: bool)
        ensures
            r == match self.enabled {
                Some(b) => b,
                None => true,
            },
    {
        match self.enabled {
            Some(b) => b,
            None => true,
        }
    }

    /// The buffer size in force, 1000 by default.
    pub fn buffer_size(&self) -> (r: usize)
        ensures
            r == match self.buffer_size {
                Some(n) => n,
                None => 1000,
            },
    {
        match self.buffer_size {
            Some(n) => n,
            None => 1000,
        }
    }

    /// The time to connect in seconds, 5 by default.
    pub fn connect_timeout(&self) -> (r: u64)
        ensures
            r == match self.connect_timeout {
                Some(n) => n,
                None => 5,
            },
    {
        match self.connect_timeout {
            Some(n) => n,
            None => 5,
        }
    }

    /// The time for a request in seconds, 15 by default.
    pub fn request_timeout(&self) -> (r: u64)
        ensures
            r == match self.request_timeout {
                Some(n) => n,
                None => 15,
            },
    {
        match self.request_timeout {
            Some(n) => n,
            None => 15,
        }
    }

    /// Whether invalid certificates are accepted; by default they are not.
    pub fn accept_invalid_certs(&self) -> (r: bool)
        ensures
            r == match self.accept_invalid_certs {
                Some(b) => b,
                None => false,
            },
    {
        match self.accept_invalid_certs {
            Some(b) => b,
            None => false,
        }
    }

    /// What the hook needs for each request: the sample rate, `1.0` by
    /// default, the excluded operation names, none by default, and the
    /// names of the two client headers.
    pub fn operation_config(self) -> (r: OperationConfig)
        ensures
            r.sample_rate == match self.sample_rate {
                Some(bits) => bits,
                None => ONE_BITS,
            },
            views(r.exclude@) == match self.exclude {
                Some(names) => views(names@),
                None => Seq::<Seq<char>>::empty(),
            },
            r.client_name_header@ == match self.client_name_header {
                Some(h) => h@,
                None => "graphql-client-name"@,
            },
            r.client_version_header@ == match self.client_version_header {
                Some(h) => h@,
                None => "graphql-client-version"@,
            },
    {
        let exclude: Vec<String> = match self.exclude {
            Some(names) => names,
            None => {
                let empty: Vec<String> = Vec::new();
                assert(views(empty@) =~= Seq::<Seq<char>>::empty());
                empty
            },
        };
        OperationConfig {
            sample_rate: match self.sample_rate {
                Some(bits) => bits,
                None => ONE_BITS,
            },
            exclude,
            client_name_header: match self.client_name_header {
                Some(h) => h,
                None => owned("graphql-client-name"),
            },
            client_version_header: match self.client_version_header {
                Some(h) => h,
                None => owned("graphql-client-version"),
            },
        }
    }
}

/// Whether a draw falls below a sample rate, both given by their bit
/// patterns: the rate is not negative and not NaN, and the draw is the
/// smaller number.
pub open spec fn sampled(draw: u64, sample_rate: u64) -> bool {
    sample_rate <= INFINITY_BITS && draw < sample_rate
}

/// Whether an operation name is among the excluded names.
pub open spec fn excluded(exclude: Seq<Seq<char>>, operation_name: Option<Seq<char>>) -> bool {
    match operation_name {
        Some(name) => exclude.contains(name),
        None => false,
    }
}

/// A sample rate of `0.0` drops every execution, and a sample rate of `1.0`
/// keeps every execution, whatever is drawn from 0 up to but not including 1.
pub proof fn lemma_sampling_bounds(draw: u64)
    requires
        draw < ONE_BITS,
    ensures
        !sampled(draw, 0),
        sampled(draw, ONE_BITS),
{
}

/// Whether an execution is sampled. `draw` is the bit pattern of a number
/// drawn from 0 up to but not including 1.
pub fn is_sampled(draw: u64, sample_rate: u64) -> (r: bool)
    requires
        draw < ONE_BITS,
    ensures
        r == sampled(draw, sample_rate),
        sample_rate == 0 ==> !r,
        sample_rate == ONE_BITS ==> r,
{
    sample_rate <= INFINITY_BITS && draw < sample_rate
}

/// Whether an operation is excluded by its name.
pub fn is_excluded(exclude: &Vec<String>, operation_name: &Option<String>) -> (r: bool)
    ensures
        r == excluded(views(exclude@), text_view(*operation_name)),
{
    match operation_name {
        Some(name) => contains_string(exclude, name),
        None => false,
    }
}

/// The reporter of the host hook.
pub struct UsageReporter {
    pub config: UsageConfig,
}

impl UsageReporter {
    /// A reporter with the given configuration.
    pub fn new(config: UsageConfig) -> (r: UsageReporter)
        ensures
            r.config == config,
    {
        UsageReporter { config }
    }

    /// Whether the execution of an operation is dropped: reporting is
    /// disabled, the draw is not below the sample rate, or the operation is
    /// excluded by name.
    pub fn is_dropped(&self, draw: u64, operation_name: &Option<String>) -> (r: bool)
        requires
            draw < ONE_BITS,
        ensures
            r == (!self.config.enabled || !sampled(draw, self.config.sample_rate) || excluded(
                views(self.config.exclude@),
                text_view(*operation_name),
            )),
    {
        !self.config.enabled || !is_sampled(draw, self.config.sample_rate) || is_excluded(
            &self.config.exclude,
            operation_name,
        )
    }

    /// The record of an execution, unless the execution is dropped. The
    /// execution is well when it ended without errors.
    pub fn process(
        &self,
        public_ctx: GraphQLHiveContext,
        internal_ctx: HiveInternalContext,
        duration: u128,
        errors: usize,
        draw: u64,
    ) -> (r: Option<ExecutionReport>)
        requires
            draw < ONE_BITS,
        ensures
            match r {
                None => !self.config.enabled || !sampled(draw, self.config.sample_rate) || excluded(
                    views(self.config.exclude@),
                    text_view(internal_ctx.operation_name),
                ),
                Some(report) => self.config.enabled && sampled(draw, self.config.sample_rate) && !excluded(
                    views(self.config.exclude@),
                    text_view(internal_ctx.operation_name),
                ) && report.client_name == public_ctx.client_name && report.client_version
                    == public_ctx.client_version && report.timestamp == public_ctx.timestamp && report.duration
                    == duration && report.ok == (errors == 0) && report.errors == errors
                    && report.operation_body == internal_ctx.operation_body && report.operation_name
                    == internal_ctx.operation_name,
            },
    {
        if self.is_dropped(draw, &internal_ctx.operation_name) {
            None
        } else {
            Some(
                ExecutionReport {
                    client_name: public_ctx.client_name,
                    client_version: public_ctx.client_version,
                    timestamp: public_ctx.timestamp,
                    duration,
                    ok: errors == 0,
                    errors,
                    operation_body: internal_ctx.operation_body,
                    operation_name: internal_ctx.operation_name,
                },
            )
        }
    }
}

} // verus!
