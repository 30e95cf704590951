//! Desktop integration requests from the front-end: file and link
//! associations and start at login.

use vstd::prelude::*;
use vstd::string::StringExecFns;

verus! {

/// What the front-end asks of the desktop.
#[derive(Debug, Clone, Copy, PartialEq, Eq, Structural)]
pub enum IntegrationRequest {
    /// Open `.torrent` files with the application.
    AssociateTorrent,
    /// Open magnet links with the application.
    AssociateMagnet,
    /// Start the application at login.
    Autostart,
    /// Do not start the application at login.
    NoAutostart,
    /// Report whether the application starts at login.
    GetAutostart,
    /// Anything else.
    Unknown,
}

fn is(s: &String, lit: &str) -> (r: bool)
    ensures
        r == (s@ == lit@),
{
    *s == String::from_str(lit)
}

/// The request that a mode string names.
pub fn integration_request(mode: &String) -> (r: IntegrationRequest)
    ensures
        mode@ == "torrent"@ ==> r == IntegrationRequest::AssociateTorrent,
        mode@ == "magnet"@ ==> r == IntegrationRequest::AssociateMagnet,
        mode@ == "autostart"@ ==> r == IntegrationRequest::Autostart,
        mode@ == "noautostart"@ ==> r == IntegrationRequest::NoAutostart,
        mode@ == "getautostart"@ ==> r == IntegrationRequest::GetAutostart,
        mode@ != "torrent"@ && mode@ != "magnet"@ && mode@ != "autostart"@ && mode@
            != "noautostart"@ && mode@ != "getautostart"@ ==> r == IntegrationRequest::Unknown,
{
    proof {
        reveal_strlit("torrent");
        reveal_strlit("magnet");
        reveal_strlit("autostart");
        reveal_strlit("noautostart");
        reveal_strlit("getautostart");
        assert("torrent"@.len() == 7 && "magnet"@.len() == 6 && "autostart"@.len() == 9
            && "noautostart"@.len() == 11 && "getautostart"@.len() == 12);
    }
    if is(mode, "torrent") {
        IntegrationRequest::AssociateTorrent
    } else if is(mode, "magnet") {
        IntegrationRequest::AssociateMagnet
    } else if is(mode, "autostart") {
        IntegrationRequest::Autostart
    } else if is(mode, "noautostart") {
        IntegrationRequest::NoAutostart
    } else if is(mode, "getautostart") {
        IntegrationRequest::GetAutostart
    } else {
        IntegrationRequest::Unknown
    }
}

/// The answer to a desktop integration request where the desktop keeps no
/// registry of associations: nothing is registered, and the application
/// never starts at login.
pub fn app_integration_impl(_mode: String) -> (r: bool)
    ensures
        !r,
{
    false
}

} // verus!
