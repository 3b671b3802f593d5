//! The accessibility side of docking: the error codes of the macOS
//! accessibility API, the queries that locate a terminal application and
//! its process, and how their output is read. Where the accessibility API
//! is absent, nothing is trusted and nothing is found.
use vstd::prelude::*;

use crate::provider::{parse_u32, parsed_u32, which_output_path, which_path};
use crate::text::{concat, trim, trimmed};

verus! {

/// An error code of the accessibility API.
#[derive(Clone, Copy, Debug, PartialEq, Eq, Structural)]
pub enum AxError {
    Success,
    Failure,
    IllegalArgument,
    InvalidUIElement,
    InvalidUIElementObserver,
    CannotComplete,
    AttributeUnsupported,
    ActionUnsupported,
    NotificationUnsupported,
    NotImplemented,
    NotificationAlreadyRegistered,
    NotificationNotRegistered,
    APIDisabled,
    NoValue,
    ParameterizedAttributeUnsupported,
    NotEnoughPrecision,
    Other,
}

/// The numeric code of each error.
pub open spec fn ax_code(e: AxError) -> int {
    match e {
        AxError::Success => 0,
        AxError::Failure => -25200,
        AxError::IllegalArgument => -25201,
        AxError::InvalidUIElement => -25202,
        AxError::InvalidUIElementObserver => -25203,
        AxError::CannotComplete => -25204,
        AxError::AttributeUnsupported => -25205,
        AxError::ActionUnsupported => -25206,
        AxError::NotificationUnsupported => -25208,
        AxError::NotImplemented => -25209,
        AxError::NotificationAlreadyRegistered => -25210,
        AxError::NotificationNotRegistered => -25211,
        AxError::APIDisabled => -25212,
        AxError::NoValue => -25213,
        AxError::ParameterizedAttributeUnsupported => -25214,
        AxError::NotEnoughPrecision => -25215,
        AxError::Other => -25999,
    }
}

/// The error a code stands for; an unknown code is `Other`.
pub open spec fn ax_error_of(code: int) -> AxError {
    if code == 0 {
        AxError::Success
    } else if code == -25200 {
        AxError::Failure
    } else if code == -25201 {
        AxError::IllegalArgument
    } else if code == -25202 {
        AxError::InvalidUIElement
    } else if code == -25203 {
        AxError::InvalidUIElementObserver
    } else if code == -25204 {
        AxError::CannotComplete
    } else if code == -25205 {
        AxError::AttributeUnsupported
    } else if code == -25206 {
        AxError::ActionUnsupported
    } else if code == -25208 {
        AxError::NotificationUnsupported
    } else if code == -25209 {
        AxError::NotImplemented
    } else if code == -25210 {
        AxError::NotificationAlreadyRegistered
    } else if code == -25211 {
        AxError::NotificationNotRegistered
    } else if code == -25212 {
        AxError::APIDisabled
    } else if code == -25213 {
        AxError::NoValue
    } else if code == -25214 {
        AxError::ParameterizedAttributeUnsupported
    } else if code == -25215 {
        AxError::NotEnoughPrecision
    } else {
        AxError::Other
    }
}

impl AxError {
    /// The numeric code of the error.
    pub fn code(self) -> (r: i32)
        ensures
            r == ax_code(self),
    {
        match self {
            AxError::Success => 0,
            AxError::Failure => -25200,
            AxError::IllegalArgument => -25201,
            AxError::InvalidUIElement => -25202,
            AxError::InvalidUIElementObserver => -25203,
            AxError::CannotComplete => -25204,
            AxError::AttributeUnsupported => -25205,
            AxError::ActionUnsupported => -25206,
            AxError::NotificationUnsupported => -25208,
            AxError::NotImplemented => -25209,
            AxError::NotificationAlreadyRegistered => -25210,
            AxError::NotificationNotRegistered => -25211,
            AxError::APIDisabled => -25212,
            AxError::NoValue => -25213,
            AxError::ParameterizedAttributeUnsupported => -25214,
            AxError::NotEnoughPrecision => -25215,
            AxError::Other => -25999,
        }
    }
}

impl From<i32> for AxError {
    fn from(code: i32) -> (r: AxError) {
        if code == 0 {
            AxError::Success
        } else if code == -25200 {
            AxError::Failure
        } else if code == -25201 {
            AxError::IllegalArgument
        } else if code == -25202 {
            AxError::InvalidUIElement
        } else if code == -25203 {
            AxError::InvalidUIElementObserver
        } else if code == -25204 {
            AxError::CannotComplete
        } else if code == -25205 {
            AxError::AttributeUnsupported
        } else if code == -25206 {
            AxError::ActionUnsupported
        } else if code == -25208 {
            AxError::NotificationUnsupported
        } else if code == -25209 {
            AxError::NotImplemented
        } else if code == -25210 {
            AxError::NotificationAlreadyRegistered
        } else if code == -25211 {
            AxError::NotificationNotRegistered
        } else if code == -25212 {
            AxError::APIDisabled
        } else if code == -25213 {
            AxError::NoValue
        } else if code == -25214 {
            AxError::ParameterizedAttributeUnsupported
        } else if code == -25215 {
            AxError::NotEnoughPrecision
        } else {
            AxError::Other
        }
    }
}

impl vstd::std_specs::convert::FromSpecImpl<i32> for AxError {
    open spec fn obeys_from_spec() -> bool {
        true
    }

    open spec fn from_spec(code: i32) -> AxError {
        ax_error_of(code as int)
    }
}

/// Reading an error back from its code gives the error, for every error
/// but `Other`, whose code stands for any code the API does not name.
pub proof fn lemma_code_round_trip(e: AxError)
    ensures
        e != AxError::Other ==> ax_error_of(ax_code(e)) == e,
        ax_error_of(ax_code(AxError::Other)) == AxError::Other,
{
}

/// Whether this process may use the accessibility API: never where the API
/// is absent.
pub fn is_trusted() -> (r: bool)
    ensures
        !r,
{
    false
}

/// Asks the user for accessibility access: where the API is absent there is
/// nobody to ask, and access stays refused.
pub fn request_trust() -> (r: bool)
    ensures
        !r,
{
    false
}

/// Locates an application by bundle id: where the search service is absent
/// nothing is found.
pub fn mdfind(bundle_id: &str) -> (r: Option<String>)
    ensures
        r is None,
{
    None
}

/// The process id of a running application: where the scripting service is
/// absent nothing is found.
pub fn pid_of_process(app_name: &str) -> (r: Option<u32>)
    ensures
        r is None,
{
    None
}

/// The Spotlight query for an application with this bundle id.
pub fn mdfind_query(bundle_id: &str) -> (r: String)
    ensures
        r@ == "kMDItemCFBundleIdentifier == '"@ + bundle_id@ + "'"@,
{
    let a = concat("kMDItemCFBundleIdentifier == '", bundle_id);
    concat(a.as_str(), "'")
}

/// The application path in the output of `mdfind`: its first line,
/// trimmed, unless that is empty.
pub fn mdfind_path(stdout: &str) -> (r: Option<String>)
    ensures
        match (r, which_path(stdout@)) {
            (Some(p), Some(q)) => p@ == q,
            (None, None) => true,
            _ => false,
        },
{
    which_output_path(stdout)
}

/// The script that asks System Events for the process id of an
/// application, named between double quotes as it is.
pub fn pid_script(app_name: &str) -> (r: String)
    ensures
        r@ == "tell application \"System Events\" to unix id of first process whose name is \""@
            + app_name@ + "\""@,
{
    let a = concat(
        "tell application \"System Events\" to unix id of first process whose name is \"",
        app_name,
    );
    concat(a.as_str(), "\"")
}

/// The process id in the output of that script: the whole output, trimmed,
/// read as a number.
pub fn pid_from_output(stdout: &str) -> (r: Option<u32>)
    ensures
        r == parsed_u32(trimmed(stdout@)),
{
    let t = trim(stdout);
    parse_u32(t.as_str())
}

} // verus!
