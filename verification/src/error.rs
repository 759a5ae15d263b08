//! The ways in which reading a version or finding an executable fails.
use vstd::prelude::*;
use vstd::string::*;

use crate::version::RequestedVersion;

verus! {

/// Why a piece of text is not a version component.
#[derive(Clone, Copy, Debug, PartialEq, Eq, Structural)]
pub enum ComponentError {
    /// The text is empty.
    Empty,
    /// A character that is not a decimal digit comes before any overflow.
    InvalidDigit,
    /// The leading digits denote a number that a component cannot hold.
    PosOverflow,
}

#[derive(Clone, Copy, Debug, PartialEq, Eq, Structural)]
pub enum Error {
    /// A version component is not an unsigned decimal number.
    ParseVersionComponentError(ComponentError),
    /// An exact version lacks the `.` between its components.
    DotMissing,
    /// A path has no final component.
    FileNameMissing,
    /// The final component of a path is not text.
    FileNameToStrError,
    /// A file name is not of the form `pythonX.Y`.
    PathFileNameError,
    /// No executable that was found supports the requested version.
    NoExecutableFound(RequestedVersion),
}

impl ComponentError {
    /// The message that describes this failure.
    pub open spec fn message(self) -> Seq<char> {
        match self {
            ComponentError::Empty => "cannot parse integer from empty string"@,
            ComponentError::InvalidDigit => "invalid digit found in string"@,
            ComponentError::PosOverflow => "number too large to fit in target type"@,
        }
    }

    /// Renders the failure as a message.
    pub fn to_string(&self) -> (text: String)
        ensures
            text@ == self.message(),
    {
        match self {
            ComponentError::Empty => String::from_str("cannot parse integer from empty string"),
            ComponentError::InvalidDigit => String::from_str("invalid digit found in string"),
            ComponentError::PosOverflow => String::from_str(
                "number too large to fit in target type",
            ),
        }
    }
}

impl Error {
    /// The message that describes this error.
    pub open spec fn message(self) -> Seq<char> {
        match self {
            Error::ParseVersionComponentError(cause) => "Error parsing a version component: "@
                + cause.message(),
            Error::DotMissing => "'.' missing from the version"@,
            Error::FileNameMissing => "Path lacks a file name"@,
            Error::FileNameToStrError => "Failed to convert file name to `str`"@,
            Error::PathFileNameError => "File name not of the format `pythonX.Y`"@,
            Error::NoExecutableFound(requested) => "No executable found for "@
                + requested.text(),
        }
    }

    /// Renders the error as a message.
    pub fn to_string(&self) -> (text: String)
        ensures
            text@ == self.message(),
    {
        match self {
            Error::ParseVersionComponentError(cause) => {
                let mut text = String::from_str("Error parsing a version component: ");
                text.append(cause.to_string().as_str());
                text
            },
            Error::DotMissing => String::from_str("'.' missing from the version"),
            Error::FileNameMissing => String::from_str("Path lacks a file name"),
            Error::FileNameToStrError => String::from_str("Failed to convert file name to `str`"),
            Error::PathFileNameError => String::from_str(
                "File name not of the format `pythonX.Y`",
            ),
            Error::NoExecutableFound(requested) => {
                let mut text = String::from_str("No executable found for ");
                text.append(requested.to_string().as_str());
                text
            },
        }
    }

    /// The failure that lies under this error, if it has one.
    pub fn source(&self) -> (cause: Option<ComponentError>)
        ensures
            cause is Some <==> *self is ParseVersionComponentError,
            cause matches Some(inner) ==> *self == Error::ParseVersionComponentError(inner),
    {
        match self {
            Error::ParseVersionComponentError(inner) => Some(*inner),
            _ => None,
        }
    }
}

} // verus!
