//! The standard `status` property.

use vstd::prelude::*;
use vstd::string::StringSliceAdditionalSpecFns;

use crate::error::StandardError;
use crate::text::str_eq;

verus! {

/// The value of a `status` property.
#[derive(Clone, Copy, Debug, Eq, PartialEq)]
pub enum Status {
    /// The device is operational.
    Okay,
    /// The device is not currently operational, but might become so.
    Disabled,
    /// The device is operational but shouln't be used.
    Reserved,
    /// The device is not operational.
    Fail,
    /// The device is not operational, with some device-specific error
    /// condition.
    FailSss,
}

impl Default for Status {
    fn default() -> (r: Status)
        ensures
            r == Status::Okay,
    {
        Status::Okay
    }
}

/// The status that the text with the UTF-8 bytes `text` names.
pub open spec fn status_of(text: Seq<u8>) -> Result<Status, StandardError> {
    if text == "okay".spec_bytes() {
        Ok(Status::Okay)
    } else if text == "disabled".spec_bytes() {
        Ok(Status::Disabled)
    } else if text == "reserved".spec_bytes() {
        Ok(Status::Reserved)
    } else if text == "fail".spec_bytes() {
        Ok(Status::Fail)
    } else if text == "fail-sss".spec_bytes() {
        Ok(Status::FailSss)
    } else {
        Err(StandardError::InvalidStatus)
    }
}

impl Status {
    /// The text that names this status.
    pub open spec fn text(self) -> &'static str {
        match self {
            Status::Okay => "okay",
            Status::Disabled => "disabled",
            Status::Reserved => "reserved",
            Status::Fail => "fail",
            Status::FailSss => "fail-sss",
        }
    }

    /// Returns the text that names this status.
    pub fn as_str(self) -> (r: &'static str)
        ensures
            r == self.text(),
    {
        match self {
            Status::Okay => "okay",
            Status::Disabled => "disabled",
            Status::Reserved => "reserved",
            Status::Fail => "fail",
            Status::FailSss => "fail-sss",
        }
    }

    /// Reads a status from its name.
    ///
    /// Fails with `InvalidStatus` when `s` names no status.
    pub fn parse(s: &str) -> (r: Result<Status, StandardError>)
        ensures
            r == status_of(s.spec_bytes()),
    {
        if str_eq(s, "okay") {
            Ok(Status::Okay)
        } else if str_eq(s, "disabled") {
            Ok(Status::Disabled)
        } else if str_eq(s, "reserved") {
            Ok(Status::Reserved)
        } else if str_eq(s, "fail") {
            Ok(Status::Fail)
        } else if str_eq(s, "fail-sss") {
            Ok(Status::FailSss)
        } else {
            Err(StandardError::InvalidStatus)
        }
    }
}

impl core::str::FromStr for Status {
    type Err = StandardError;

    fn from_str(s: &str) -> (r: Result<Status, StandardError>)
        ensures
            r == status_of(s.spec_bytes()),
    {
        Status::parse(s)
    }
}

} // verus!
