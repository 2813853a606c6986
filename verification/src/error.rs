//! What can go wrong while a request is proxied.

use vstd::prelude::*;

use crate::fcgi_codec::FcgiError;
use crate::text::{concat, decimal, decimal_str};

verus! {

/// Why a request could not be proxied. The causes that come from outside are held as
/// their text.
#[allow(inconsistent_fields)]
#[derive(Debug)]
pub enum ProxyError {
    /// No backend could be found for the site.
    BackendResolver {
        /// The host that was asked for.
        host: String,
        /// The cause.
        source: String,
    },
    /// The backend could not be reached.
    BackendConnect {
        /// The backend.
        backend: String,
        /// The cause.
        source: String,
    },
    /// The exchange with the backend broke.
    BackendProtocol {
        /// The cause.
        source: String,
    },
    /// The backend sent no acceptable record, or the request does not fit into one.
    Fcgi {
        /// The cause.
        source: FcgiError,
    },
    /// Something in the proxy's own setup failed.
    Setup {
        /// The cause.
        source: String,
    },
}

/// The text of a codec error.
pub open spec fn fcgi_error_text(e: FcgiError) -> Seq<char> {
    match e {
        FcgiError::Truncated => "truncated record header"@,
        FcgiError::UnsupportedVersion(v) => "unsupported protocol version "@ + decimal(v as nat),
        FcgiError::UnknownRecordType(t) => "unknown record type "@ + decimal(t as nat),
        FcgiError::UnexpectedRequestId(id) => "unexpected request id "@ + decimal(id as nat),
        FcgiError::PairTooLong => "name or value too long"@,
    }
}

/// The text of an error.
pub open spec fn error_text(e: ProxyError) -> Seq<char> {
    match e {
        ProxyError::BackendResolver { host, source } => "no backend for "@ + host@ + ": "@ + source@,
        ProxyError::BackendConnect { backend, source } => "cannot connect to backend "@ + backend@
            + ": "@ + source@,
        ProxyError::BackendProtocol { source } => "backend protocol error: "@ + source@,
        ProxyError::Fcgi { source } => "FastCGI error: "@ + fcgi_error_text(source),
        ProxyError::Setup { source } => "proxy setup failed: "@ + source@,
    }
}

impl FcgiError {
    /// The text of this error.
    pub fn to_string(&self) -> (text: String)
        ensures
            text@ == fcgi_error_text(*self),
    {
        match self {
            FcgiError::Truncated => "truncated record header".to_owned(),
            FcgiError::UnsupportedVersion(v) => concat(
                "unsupported protocol version ",
                decimal_str(*v as u64).as_str(),
            ),
            FcgiError::UnknownRecordType(t) => concat(
                "unknown record type ",
                decimal_str(*t as u64).as_str(),
            ),
            FcgiError::UnexpectedRequestId(id) => concat(
                "unexpected request id ",
                decimal_str(*id as u64).as_str(),
            ),
            FcgiError::PairTooLong => "name or value too long".to_owned(),
        }
    }
}

impl ProxyError {
    /// The text of this error.
    pub fn to_string(&self) -> (text: String)
        ensures
            text@ == error_text(*self),
    {
        match self {
            ProxyError::BackendResolver { host, source } => {
                let mut text: String = concat("no backend for ", host.as_str());
                text.append(": ");
                text.append(source.as_str());
                text
            },
            ProxyError::BackendConnect { backend, source } => {
                let mut text: String = concat("cannot connect to backend ", backend.as_str());
                text.append(": ");
                text.append(source.as_str());
                text
            },
            ProxyError::BackendProtocol { source } => concat(
                "backend protocol error: ",
                source.as_str(),
            ),
            ProxyError::Fcgi { source } => concat("FastCGI error: ", source.to_string().as_str()),
            ProxyError::Setup { source } => concat("proxy setup failed: ", source.as_str()),
        }
    }
}

} // verus!
