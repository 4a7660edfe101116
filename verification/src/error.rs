//! Error taxonomy of the library.

use vstd::prelude::*;
use crate::text::{dec_chars, string_from_chars, u64_to_dec, push_all, chars_of_str};

verus! {

/// The error kinds the toolkit reports.
///
/// `Timeout` carries the expired deadline in milliseconds; the other variants
/// carry a human-readable description.
#[derive(Debug, Clone)]
pub enum DnsxError {
    /// DNS-level failure: all resolvers failed or answered non-recoverably.
    Resolve(String),
    /// A per-operation deadline expired (milliseconds).
    Timeout(u64),
    /// A domain, IP, CIDR, ASN, or resolver string does not parse.
    InvalidInput(String),
    /// A configuration contract was violated.
    Validation(String),
    /// Resolver address parsing or binding failed.
    ResolverConfig(String),
    /// Transport I/O error.
    Network(String),
    /// Encode or decode failure.
    Serialization(String),
    /// Sink-level failure.
    Export(String),
    /// Wildcard detection failure.
    Wildcard(String),
    /// Bruteforce failure.
    Bruteforce(String),
    /// Any other failure, with context.
    Other(String),
}

/// The message text of an error value.
pub open spec fn spec_message(e: DnsxError) -> Seq<char> {
    match e {
        DnsxError::Resolve(m) => "DNS resolution failed: "@ + m@,
        DnsxError::Timeout(ms) => "DNS query timed out after "@ + dec_chars(ms as nat) + "ms"@,
        DnsxError::InvalidInput(m) => "Invalid input: "@ + m@,
        DnsxError::Validation(m) => "Validation failed: "@ + m@,
        DnsxError::ResolverConfig(m) => "Resolver configuration error: "@ + m@,
        DnsxError::Network(m) => "Network I/O error: "@ + m@,
        DnsxError::Serialization(m) => "Serialization error: "@ + m@,
        DnsxError::Export(m) => "Export error: "@ + m@,
        DnsxError::Wildcard(m) => "Wildcard detection error: "@ + m@,
        DnsxError::Bruteforce(m) => "Bruteforce error: "@ + m@,
        DnsxError::Other(m) => m@,
    }
}

impl DnsxError {
    /// A new resolve error.
    pub fn resolve(msg: String) -> (r: Self)
        ensures
            r == DnsxError::Resolve(msg),
    {
        DnsxError::Resolve(msg)
    }

    /// A new timeout error for a deadline in milliseconds.
    pub fn timeout(duration_ms: u64) -> (r: Self)
        ensures
            r == DnsxError::Timeout(duration_ms),
    {
        DnsxError::Timeout(duration_ms)
    }

    /// A new invalid-input error.
    pub fn invalid_input(msg: String) -> (r: Self)
        ensures
            r == DnsxError::InvalidInput(msg),
    {
        DnsxError::InvalidInput(msg)
    }

    /// A new validation error.
    pub fn validation(msg: String) -> (r: Self)
        ensures
            r == DnsxError::Validation(msg),
    {
        DnsxError::Validation(msg)
    }

    /// The error's message, one line of text.
    pub fn message(&self) -> (r: String)
        ensures
            r@ == spec_message(*self),
    {
        match self {
            DnsxError::Resolve(m) => String::from_str("DNS resolution failed: ").concat(
                m.as_str(),
            ),
            DnsxError::Timeout(ms) => {
                let mut v = chars_of_str("DNS query timed out after ");
                let digits = u64_to_dec(*ms);
                push_all(&mut v, &digits);
                let suffix = chars_of_str("ms");
                push_all(&mut v, &suffix);
                string_from_chars(&v)
            },
            DnsxError::InvalidInput(m) => String::from_str("Invalid input: ").concat(m.as_str()),
            DnsxError::Validation(m) => String::from_str("Validation failed: ").concat(m.as_str()),
            DnsxError::ResolverConfig(m) => String::from_str(
                "Resolver configuration error: ",
            ).concat(m.as_str()),
            DnsxError::Network(m) => String::from_str("Network I/O error: ").concat(m.as_str()),
            DnsxError::Serialization(m) => String::from_str("Serialization error: ").concat(
                m.as_str(),
            ),
            DnsxError::Export(m) => String::from_str("Export error: ").concat(m.as_str()),
            DnsxError::Wildcard(m) => String::from_str("Wildcard detection error: ").concat(
                m.as_str(),
            ),
            DnsxError::Bruteforce(m) => String::from_str("Bruteforce error: ").concat(m.as_str()),
            DnsxError::Other(m) => m.clone(),
        }
    }
}

/// Result alias used throughout the library.
pub type DnsxResult<T> = Result<T, DnsxError>;

} // verus!
