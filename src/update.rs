//! Settings for installing a system update.

use vstd::prelude::*;

verus! {

/// The Omaha service to ask which update to install.
pub struct OmahaConfig {
    /// The app_id to use for Omaha.
    pub app_id: String,
    /// The URL of the Omaha server.
    pub server_url: String,
}

} // verus!
