//! What a request carries for the usage reporter.

use vstd::prelude::*;
use crate::agent::{non_empty, non_empty_string, text_view};

verus! {

/// The client of a request and the time at which the request came in, in
/// milliseconds since the epoch. A client name or version is never empty.
#[derive(Debug)]
pub struct GraphQLHiveContext {
    pub client_name: Option<String>,
    pub client_version: Option<String>,
    pub timestamp: u64,
}

impl GraphQLHiveContext {
    /// The context of a request with the given client headers. A header
    /// that is missing or empty leaves the field absent.
    pub fn new(client_name: Option<String>, client_version: Option<String>, timestamp: u64) -> (r: GraphQLHiveContext)
        ensures
            text_view(r.client_name) == non_empty(text_view(client_name)),
            text_view(r.client_version) == non_empty(text_view(client_version)),
            r.timestamp == timestamp,
    {
        GraphQLHiveContext {
            client_name: non_empty_string(client_name),
            client_version: non_empty_string(client_version),
            timestamp,
        }
    }
}

/// The operation of a request, kept from the moment the request is prepared.
#[derive(Debug)]
pub struct HiveInternalContext {
    pub operation_name: Option<String>,
    pub operation_body: String,
}

} // verus!
