//! What can go wrong.

use std::time::Duration;

use hickory_client::proto::ProtoError;
use hickory_client::ClientError;

use vstd::prelude::*;

use crate::address::Endpoint;
use crate::names::{is_request_timeout, request_timeout};

verus! {

/// Why a lookup, or the making of a client, failed.
#[allow(inconsistent_fields)]
#[derive(Debug)]
pub enum BlastDNSError {
    /// There is no resolver to ask.
    NoResolvers,
    /// A resolver's address cannot be read. The source is why it is no address with a
    /// port.
    InvalidResolver { resolver: String, source: String },
    /// A hostname cannot be asked for.
    InvalidHostname { name: String, source: ProtoError },
    /// The request queue takes no more work.
    QueueClosed,
    /// The workers went away before they delivered a response.
    WorkerDropped,
    /// A resolver cannot be connected to.
    ResolverSetupFailed { resolver: Endpoint, source: ProtoError },
    /// A query to a resolver failed.
    ResolverRequestFailed { resolver: Endpoint, source: ClientError },
    /// A resolver did not answer within the time it was given.
    QueryTimedOut { resolver: Endpoint, timeout: Duration },
    /// The configuration, or the system, does not allow what was asked for.
    Configuration(String),
}

impl BlastDNSError {
    /// What the error says to a reader.
    pub open spec fn text(self) -> Seq<char> {
        match self {
            BlastDNSError::NoResolvers => "no resolvers provided"@,
            BlastDNSError::InvalidResolver { resolver, .. } => "invalid resolver `"@ + resolver@ + "`"@,
            BlastDNSError::InvalidHostname { name, .. } => "invalid hostname `"@ + name@ + "`"@,
            BlastDNSError::QueueClosed => "request queue closed"@,
            BlastDNSError::WorkerDropped =>
                "resolver workers dropped before delivering a response"@,
            BlastDNSError::ResolverSetupFailed { resolver, .. } => "failed to initialize resolver "@
                + resolver.text(),
            BlastDNSError::ResolverRequestFailed { resolver, .. } => "resolver "@ + resolver.text()
                + " query failed"@,
            BlastDNSError::QueryTimedOut { resolver, .. } => "resolver "@ + resolver.text()
                + " query timed out"@,
            BlastDNSError::Configuration(reason) => reason@,
        }
    }

    /// Whether a resolver failed to answer in time.
    pub open spec fn timed_out(self) -> bool {
        match self {
            BlastDNSError::QueryTimedOut { .. } => true,
            BlastDNSError::ResolverRequestFailed { source, .. } => is_request_timeout(source),
            _ => false,
        }
    }

    /// Whether the failure is that of a resolver, so that another attempt, at
    /// another resolver, may succeed.
    pub open spec fn retryable(self) -> bool {
        ||| self is ResolverSetupFailed
        ||| self is ResolverRequestFailed
        ||| self is QueryTimedOut
    }

    /// What the error says to a reader.
    pub fn message(&self) -> (message: String)
        ensures
            message@ == self.text(),
    {
        match self {
            BlastDNSError::NoResolvers => "no resolvers provided".to_owned(),
            BlastDNSError::InvalidResolver { resolver, .. } => between(
                "invalid resolver `",
                resolver,
                "`",
            ),
            BlastDNSError::InvalidHostname { name, .. } => between("invalid hostname `", name, "`"),
            BlastDNSError::QueueClosed => "request queue closed".to_owned(),
            BlastDNSError::WorkerDropped =>
                "resolver workers dropped before delivering a response".to_owned(),
            BlastDNSError::ResolverSetupFailed { resolver, .. } => {
                let mut text: String = "failed to initialize resolver ".to_owned();
                text.append(resolver.to_text().as_str());
                text
            },
            BlastDNSError::ResolverRequestFailed { resolver, .. } => between(
                "resolver ",
                &resolver.to_text(),
                " query failed",
            ),
            BlastDNSError::QueryTimedOut { resolver, .. } => between(
                "resolver ",
                &resolver.to_text(),
                " query timed out",
            ),
            BlastDNSError::Configuration(reason) => reason.clone(),
        }
    }

    /// Whether a resolver failed to answer in time.
    pub fn is_timeout(&self) -> (timeout: bool)
        ensures
            timeout == self.timed_out(),
    {
        match self {
            BlastDNSError::QueryTimedOut { .. } => true,
            BlastDNSError::ResolverRequestFailed { source, .. } => request_timeout(source),
            _ => false,
        }
    }

    /// Whether another attempt may succeed.
    pub fn is_retryable(&self) -> (retryable: bool)
        ensures
            retryable == self.retryable(),
    {
        match self {
            BlastDNSError::ResolverSetupFailed { .. } => true,
            BlastDNSError::ResolverRequestFailed { .. } => true,
            BlastDNSError::QueryTimedOut { .. } => true,
            _ => false,
        }
    }
}

/// `inner` with `before` and `after` around it.
fn between(before: &str, inner: &String, after: &str) -> (text: String)
    ensures
        text@ == before@ + inner@ + after@,
{
    let mut text: String = before.to_owned();
    text.append(inner.as_str());
    text.append(after);
    text
}

/// A query that timed out is worth another attempt.
pub proof fn law_timeouts_are_retryable(error: BlastDNSError)
    requires
        error.timed_out(),
    ensures
        error.retryable(),
{
}

/// Only the failure of a resolver is worth another attempt: to connect to it, to get a
/// request through, or to get an answer in time. What was given to the client, and the
/// client's own ends, are not mended by asking again.
pub proof fn law_only_resolver_failures_are_retryable(
    resolver: Endpoint,
    setup: ProtoError,
    request: ClientError,
    timeout: Duration,
    text: String,
    why: String,
)
    ensures
        (BlastDNSError::ResolverSetupFailed { resolver, source: setup }).retryable(),
        (BlastDNSError::ResolverRequestFailed { resolver, source: request }).retryable(),
        (BlastDNSError::QueryTimedOut { resolver, timeout }).retryable(),
        !BlastDNSError::NoResolvers.retryable(),
        !(BlastDNSError::InvalidResolver { resolver: text, source: why }).retryable(),
        !(BlastDNSError::InvalidHostname { name: text, source: setup }).retryable(),
        !BlastDNSError::QueueClosed.retryable(),
        !BlastDNSError::WorkerDropped.retryable(),
        !BlastDNSError::Configuration(text).retryable(),
        (BlastDNSError::QueryTimedOut { resolver, timeout }).timed_out(),
        (BlastDNSError::ResolverRequestFailed { resolver, source: request }).timed_out()
            <==> is_request_timeout(request),
        !(BlastDNSError::ResolverSetupFailed { resolver, source: setup }).timed_out(),
        !BlastDNSError::NoResolvers.timed_out(),
        !BlastDNSError::QueueClosed.timed_out(),
        !BlastDNSError::WorkerDropped.timed_out(),
        !BlastDNSError::Configuration(text).timed_out(),
{
}

/// An error about a resolver says which, and one about something that was given says what,
/// whole and as it was given.
pub proof fn law_messages_name_what_they_are_about(
    resolver: Endpoint,
    setup: ProtoError,
    request: ClientError,
    timeout: Duration,
    text: String,
    why: String,
)
    ensures
        (BlastDNSError::ResolverSetupFailed { resolver, source: setup }).text()
            == "failed to initialize resolver "@ + resolver.text(),
        (BlastDNSError::ResolverRequestFailed { resolver, source: request }).text() == "resolver "@
            + resolver.text() + " query failed"@,
        (BlastDNSError::QueryTimedOut { resolver, timeout }).text() == "resolver "@
            + resolver.text() + " query timed out"@,
        (BlastDNSError::InvalidResolver { resolver: text, source: why }).text()
            == "invalid resolver `"@ + text@ + "`"@,
        (BlastDNSError::InvalidHostname { name: text, source: setup }).text()
            == "invalid hostname `"@ + text@ + "`"@,
        BlastDNSError::Configuration(text).text() == text@,
{
}

} // verus!
