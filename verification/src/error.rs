//! The library's error type and its stable codes.

use vstd::prelude::*;

verus! {

/// `std::io::Error`, carried through unchanged.
#[verifier::external_type_specification]
#[verifier::external_body]
pub struct ExIoError(std::io::Error);

/// `serde_json::Error`, carried through unchanged.
#[verifier::external_type_specification]
#[verifier::external_body]
pub struct ExJsonError(serde_json::Error);

/// `serde_yaml::Error`, carried through unchanged.
#[verifier::external_type_specification]
#[verifier::external_body]
pub struct ExYamlError(serde_yaml::Error);

/// Every way an operation of the tool can fail.
#[derive(Debug)]
pub enum JevxError {
    InvalidInput(String),
    MissingApiKey,
    Provider(String),
    ProviderWithMetrics { message: String, calls: u32, retries: u32, response_ms: u64 },
    Timeout,
    TimeoutWithMetrics { calls: u32, retries: u32, response_ms: u64 },
    Io(std::io::Error),
    Json(serde_json::Error),
    Yaml(serde_yaml::Error),
}

/// The stable code of each error kind, as reports and receipts carry it.
pub open spec fn spec_error_code(e: &JevxError) -> Seq<char> {
    match e {
        JevxError::InvalidInput(_) => "invalid_input"@,
        JevxError::MissingApiKey => "missing_api_key"@,
        JevxError::Provider(_) => "provider_error"@,
        JevxError::ProviderWithMetrics { .. } => "provider_error"@,
        JevxError::Timeout => "timeout"@,
        JevxError::TimeoutWithMetrics { .. } => "timeout"@,
        JevxError::Io(_) => "io_error"@,
        JevxError::Json(_) => "json_error"@,
        JevxError::Yaml(_) => "yaml_error"@,
    }
}

/// The process exit status of each error kind: 2 for input, configuration and local
/// failures, 3 for provider failures.
pub open spec fn spec_exit_code(e: &JevxError) -> i32 {
    match e {
        JevxError::Provider(_) | JevxError::ProviderWithMetrics { .. } | JevxError::Timeout
        | JevxError::TimeoutWithMetrics { .. } => 3,
        _ => 2,
    }
}

impl JevxError {
    /// The stable machine-readable code of this error.
    pub fn code(&self) -> (res: &'static str)
        ensures
            res@ == spec_error_code(self),
    {
        match self {
            JevxError::InvalidInput(_) => "invalid_input",
            JevxError::MissingApiKey => "missing_api_key",
            JevxError::Provider(_) => "provider_error",
            JevxError::ProviderWithMetrics { .. } => "provider_error",
            JevxError::Timeout => "timeout",
            JevxError::TimeoutWithMetrics { .. } => "timeout",
            JevxError::Io(_) => "io_error",
            JevxError::Json(_) => "json_error",
            JevxError::Yaml(_) => "yaml_error",
        }
    }

    /// The exit status a command ends with on this error.
    pub fn exit_code(&self) -> (res: i32)
        ensures
            res == spec_exit_code(self),
    {
        match self {
            JevxError::Provider(_) | JevxError::ProviderWithMetrics { .. } | JevxError::Timeout
            | JevxError::TimeoutWithMetrics { .. } => 3,
            _ => 2,
        }
    }

    /// An input error with the given message.
    pub fn invalid_input(message: &str) -> (res: JevxError)
        ensures
            res matches JevxError::InvalidInput(m) && m@ == message@,
    {
        JevxError::InvalidInput(message.to_owned())
    }
}

} // verus!
