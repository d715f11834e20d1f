//! Configuration handed in by the caller: the values the client needs at
//! construction. Reading them from the process environment is the host
//! application's concern; this record only carries them.
use vstd::prelude::*;

verus! {

/// The construction-time configuration: the control-plane base URL, the
/// application name, the caller-supplied instance id, and the optional
/// authorization secret.
pub struct EnvironmentConfig {
    pub api_url: String,
    pub app_name: String,
    pub instance_id: String,
    pub secret: Option<String>,
}

impl Default for EnvironmentConfig {
    /// All fields empty.
    fn default() -> (r: EnvironmentConfig)
        ensures
            r.api_url@.len() == 0,
            r.app_name@.len() == 0,
            r.instance_id@.len() == 0,
            r.secret is None,
    {
        EnvironmentConfig {
            api_url: String::new(),
            app_name: String::new(),
            instance_id: String::new(),
            secret: None,
        }
    }
}

} // verus!
