//! What the hosting UI shows about the machine the proxy runs on. The
//! values are discovered by the host process; the type only carries them.

use vstd::prelude::*;

verus! {

/// Local addressing information for display.
#[derive(Debug, Clone)]
pub struct NetworkInfo {
    pub local_ip: Option<String>,
    pub hostname: Option<String>,
    pub is_macos: bool,
}

impl NetworkInfo {
    /// Bundle the discovered values.
    pub fn new(local_ip: Option<String>, hostname: Option<String>, is_macos: bool) -> (r:
        NetworkInfo)
        ensures
            r.local_ip.deep_view() == local_ip.deep_view(),
            r.hostname.deep_view() == hostname.deep_view(),
            r.is_macos == is_macos,
    {
        NetworkInfo { local_ip, hostname, is_macos }
    }
}

} // verus!
