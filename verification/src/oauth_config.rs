//! The OAuth client ids of the production build, and how a build-time
//! override replaces them.

use vstd::prelude::*;
use crate::text::{chars_of, is_blank, trim_seq};

verus! {

pub const ONEDRIVE_CLIENT_ID: &'static str = "c3ecb115-5bd3-4295-a612-898938f75dce";
pub const GOOGLE_DRIVE_CLIENT_ID: &'static str = "1012996051453-5fub1j4uce77todjq2l5rig23ameg1tn.apps.googleusercontent.com";

/// The client id in use: the build-time override when it is set and not
/// blank, otherwise the production id.
pub open spec fn chosen_id(configured: Option<Seq<char>>, production: Seq<char>) -> Seq<char> {
    match configured {
        Some(v) => if trim_seq(v).len() > 0 {
            v
        } else {
            production
        },
        None => production,
    }
}

fn choose_id<'a>(configured: Option<&'a str>, production: &'a str) -> (r: &'a str)
    ensures
        r@ == chosen_id(
            match configured {
                Some(v) => Some(v@),
                None => None,
            },
            production@,
        ),
{
    match configured {
        Some(v) => {
            let c = chars_of(v);
            if is_blank(c.as_slice()) {
                production
            } else {
                v
            }
        },
        None => production,
    }
}

/// The OneDrive client id, given the `DUCKDISK_ONEDRIVE_CLIENT_ID` the
/// build was made with.
pub fn onedrive_client_id<'a>(configured: Option<&'a str>) -> (r: &'a str)
    ensures
        r@ == chosen_id(
            match configured {
                Some(v) => Some(v@),
                None => None,
            },
            ONEDRIVE_CLIENT_ID@,
        ),
{
    choose_id(configured, ONEDRIVE_CLIENT_ID)
}

/// The Google Drive client id, given the `DUCKDISK_GOOGLE_CLIENT_ID` the
/// build was made with.
pub fn google_drive_client_id<'a>(configured: Option<&'a str>) -> (r: &'a str)
    ensures
        r@ == chosen_id(
            match configured {
                Some(v) => Some(v@),
                None => None,
            },
            GOOGLE_DRIVE_CLIENT_ID@,
        ),
{
    choose_id(configured, GOOGLE_DRIVE_CLIENT_ID)
}

} // verus!
