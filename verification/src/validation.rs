//! Checks that several probes make of their arguments.

use crate::error;
use crate::error::{AppError, ErrorView, Result};
use crate::number;
use crate::os_text::OsText;
use crate::timing::Span;
use vstd::prelude::*;

verus! {

/// The most bytes that a probe keeps for its assertions: 16 MiB.
pub const MAX_CAPTURE_BYTES: usize = 16_777_216;

/// What is wrong with a limit on kept bytes, where assertions need them.
pub open spec fn capture_limit_fault(
    flag: Seq<char>,
    limit: int,
    label: Seq<char>,
    enabled: bool,
) -> Option<ErrorView> {
    if !enabled {
        None
    } else if limit == 0 {
        error::config_fault(flag + " must be greater than 0 when "@ + label + " are used"@)
    } else if limit > MAX_CAPTURE_BYTES {
        error::config_fault(
            flag + " must be at most "@ + number::digits(MAX_CAPTURE_BYTES as nat)
                + " bytes when "@ + label + " are used"@,
        )
    } else {
        None
    }
}

/// The error for an empty value of `flag`.
pub open spec fn empty_fault(flag: Seq<char>) -> Option<ErrorView> {
    error::config_fault(flag + " must not be empty"@)
}

/// The error of a value of `flag` that must not be empty.
pub open spec fn non_empty_fault(flag: Seq<char>, len: nat) -> Option<ErrorView> {
    if len == 0 {
        empty_fault(flag)
    } else {
        None
    }
}

/// The error of values of `flag` none of which may be empty.
pub open spec fn values_fault(flag: Seq<char>, values: Seq<String>) -> Option<ErrorView> {
    if exists|i: int| 0 <= i < values.len() && (#[trigger] values[i])@.len() == 0 {
        empty_fault(flag)
    } else {
        None
    }
}

/// The error of an optional value of `flag` that must not be empty where it is given.
pub open spec fn optional_fault(flag: Seq<char>, value: Option<String>) -> Option<ErrorView> {
    match value {
        Some(value) => non_empty_fault(flag, value@.len()),
        None => None,
    }
}

/// The error of an optional path of `flag` that must not be empty where it is given.
pub open spec fn optional_path_fault(flag: Seq<char>, value: Option<OsText>) -> Option<ErrorView> {
    match value {
        Some(value) => non_empty_fault(flag, value@.len()),
        None => None,
    }
}

/// The error of a span of time that must pass.
pub open spec fn duration_fault(flag: Seq<char>, nanos: nat) -> Option<ErrorView> {
    if nanos == 0 {
        error::config_fault(flag + " must be greater than 0"@)
    } else {
        None
    }
}

/// Where assertions need kept bytes, at least one and at most 16 MiB must be kept.
pub fn validate_capture_limit(
    flag: &str,
    limit: usize,
    assertion_label: &str,
    enabled: bool,
) -> (r: Result<()>)
    ensures
        error::fault(r) == capture_limit_fault(flag@, limit as int, assertion_label@, enabled),
{
    if !enabled {
        return Ok(());
    }
    if limit == 0 {
        let mut message = flag.to_owned();
        message.append(" must be greater than 0 when ");
        message.append(assertion_label);
        message.append(" are used");
        return Err(AppError::invalid_config(message));
    }
    if limit > MAX_CAPTURE_BYTES {
        let mut message = flag.to_owned();
        message.append(" must be at most ");
        message.append(number::decimal(MAX_CAPTURE_BYTES as u128).as_str());
        message.append(" bytes when ");
        message.append(assertion_label);
        message.append(" are used");
        return Err(AppError::invalid_config(message));
    }
    Ok(())
}

/// A text must not be empty.
pub fn validate_non_empty_str(flag: &str, value: &str) -> (r: Result<()>)
    ensures
        error::fault(r) == non_empty_fault(flag@, value@.len()),
{
    if value.is_empty() {
        return Err(empty_value_error(flag));
    }
    Ok(())
}

/// A path must not be empty.
pub fn validate_non_empty_path(flag: &str, value: &OsText) -> (r: Result<()>)
    ensures
        error::fault(r) == non_empty_fault(flag@, value@.len()),
{
    if value.is_empty() {
        return Err(empty_value_error(flag));
    }
    Ok(())
}

/// None of the texts may be empty.
pub fn validate_non_empty_values(flag: &str, values: &[String]) -> (r: Result<()>)
    ensures
        error::fault(r) == values_fault(flag@, values@),
{
    let mut i: usize = 0;
    while i < values.len()
        invariant
            i <= values@.len(),
            forall|j: int| 0 <= j < i ==> (#[trigger] values@[j])@.len() > 0,
        decreases values.len() - i,
    {
        validate_non_empty_str(flag, values[i].as_str())?;
        i = i + 1;
    }
    Ok(())
}

/// A span of time must not be zero.
pub fn validate_positive_duration(flag: &str, value: Span) -> (r: Result<()>)
    ensures
        error::fault(r) == duration_fault(flag@, value@),
{
    if value.is_zero() {
        let mut message = flag.to_owned();
        message.append(" must be greater than 0");
        return Err(AppError::invalid_config(message));
    }
    Ok(())
}

/// The error for an empty value of `flag`.
fn empty_value_error(flag: &str) -> (r: AppError)
    ensures
        Some(r@) == empty_fault(flag@),
{
    let mut message = flag.to_owned();
    message.append(" must not be empty");
    AppError::invalid_config(message)
}

} // verus!
