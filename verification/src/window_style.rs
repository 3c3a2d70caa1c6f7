//! The error of the native window styling, which only macOS supports.

use vstd::prelude::*;
use crate::text::to_owned_string;

verus! {

/// Why the window could not be styled.
#[derive(Debug)]
pub enum Error {
    UnsupportedPlatform,
}

impl Error {
    /// The text that the error displays.
    pub fn message(&self) -> (r: String)
        ensures
            r@ == "\"set_shadow()\" is only supported on macOS"@,
    {
        match self {
            Error::UnsupportedPlatform => to_owned_string("\"set_shadow()\" is only supported on macOS"),
        }
    }
}

/// The styling applies to AppKit windows only.
pub fn check_platform(is_appkit: bool) -> (r: Result<(), Error>)
    ensures
        r is Ok <==> is_appkit,
{
    if is_appkit {
        Ok(())
    } else {
        Err(Error::UnsupportedPlatform)
    }
}

} // verus!
