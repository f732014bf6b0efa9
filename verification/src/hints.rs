//! The stable, user-facing error and hint strings for rejected fields
//! and failed work requests.

use vstd::prelude::*;
use crate::engine::WorkError;
use crate::parse::HexJsonError;

verus! {

/// The `error` field of a failed `work_generate` response.
pub fn work_outcome_error_string(err: WorkError) -> (r: &'static str)
    ensures
        err is Canceled ==> r@ == "Cancelled"@,
        err is Errored ==> r@ == "Work generation failed (see logs for details)"@,
{
    match err {
        WorkError::Canceled => "Cancelled",
        WorkError::Errored => "Work generation failed (see logs for details)",
    }
}

/// Error and hint of a failed benchmark response.
pub fn benchmark_failure_strings() -> (r: (&'static str, &'static str))
    ensures
        r.0@ == "Benchmark failed"@,
        r.1@ == "Work generation failure"@,
{
    ("Benchmark failed", "Work generation failure")
}

/// The fixed hint of a successful benchmark response.
pub fn benchmark_hint() -> (r: &'static str)
    ensures
        r@ == "Times in milliseconds"@,
{
    "Times in milliseconds"
}

/// Error and hint for a request whose action is not recognised.
pub fn unknown_command_strings() -> (r: (&'static str, &'static str))
    ensures
        r.0@ == "Unknown command"@,
        r.1@ == "Supported commands: work_generate, work_cancel, work_validate, benchmark, status"@,
{
    (
        "Unknown command",
        "Supported commands: work_generate, work_cancel, work_validate, benchmark, status",
    )
}

/// Error and hint for a rejected `hash` field.
pub fn hash_error_strings(err: HexJsonError) -> (r: (&'static str, &'static str))
    ensures
        err is Empty ==> r.0@ == "Bad block hash"@ && r.1@
            == "Hash is empty. Expecting a hex string"@,
        err is InvalidHex ==> r.0@ == "Bad block hash"@ && r.1@ == "Expecting a hex string"@,
        err is TooShort ==> r.0@ == "Bad block hash"@ && r.1@
            == "Hash is too short (should be 32 bytes)"@,
        err is TooLong ==> r.0@ == "Bad block hash"@ && r.1@
            == "Hash is too long (should be 32 bytes)"@,
{
    match err {
        HexJsonError::Empty => ("Bad block hash", "Hash is empty. Expecting a hex string"),
        HexJsonError::InvalidHex => ("Bad block hash", "Expecting a hex string"),
        HexJsonError::TooShort => ("Bad block hash", "Hash is too short (should be 32 bytes)"),
        HexJsonError::TooLong => ("Bad block hash", "Hash is too long (should be 32 bytes)"),
    }
}

/// Error and hint for a rejected `work` field. Short values are allowed
/// for this field, so `TooShort` cannot arrive here.
pub fn work_error_strings(err: HexJsonError) -> (r: (&'static str, &'static str))
    requires
        !(err is TooShort),
    ensures
        err is Empty ==> r.0@ == "Failed to deserialize JSON"@ && r.1@
            == "Work is empty. Expecting a hex string"@,
        err is InvalidHex ==> r.0@ == "Failed to deserialize JSON"@ && r.1@
            == "Expecting a hex string for work"@,
        err is TooLong ==> r.0@ == "Failed to deserialize JSON"@ && r.1@
            == "Work is too long (should be 8 bytes)"@,
{
    match err {
        HexJsonError::Empty => (
            "Failed to deserialize JSON",
            "Work is empty. Expecting a hex string",
        ),
        HexJsonError::TooShort => ("Failed to deserialize JSON", "Work is too short"),
        HexJsonError::InvalidHex => ("Failed to deserialize JSON", "Expecting a hex string for work"),
        HexJsonError::TooLong => ("Failed to deserialize JSON", "Work is too long (should be 8 bytes)"),
    }
}

/// Error and hint for a rejected `threshold` field.
pub fn threshold_error_strings(err: HexJsonError) -> (r: (&'static str, &'static str))
    ensures
        err is Empty ==> r.0@ == "Bad threshold"@ && r.1@
            == "Threshold is empty. Expecting a hex string"@,
        err is InvalidHex ==> r.0@ == "Bad threshold"@ && r.1@ == "Expecting a hex string"@,
        err is TooShort ==> r.0@ == "Bad threshold"@ && r.1@
            == "Threshold is too short (should be 32 bytes)"@,
        err is TooLong ==> r.0@ == "Bad threshold"@ && r.1@
            == "Threshold is too long (should be 32 bytes)"@,
{
    match err {
        HexJsonError::Empty => ("Bad threshold", "Threshold is empty. Expecting a hex string"),
        HexJsonError::InvalidHex => ("Bad threshold", "Expecting a hex string"),
        HexJsonError::TooShort => ("Bad threshold", "Threshold is too short (should be 32 bytes)"),
        HexJsonError::TooLong => ("Bad threshold", "Threshold is too long (should be 32 bytes)"),
    }
}

} // verus!
