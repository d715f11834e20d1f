//! The SDK version string sent to the control plane.
use vstd::prelude::*;
use vstd::string::StringExecFns;

verus! {

/// The version header value: the SDK name and the crate version.
pub open spec fn spec_sdk_version() -> Seq<char> {
    "unleash-client-rust:0.1.0"@
}

/// Returns the SDK version string, `"unleash-client-rust:<semver>"`.
pub fn get_sdk_version() -> (r: String)
    ensures
        r@ == spec_sdk_version(),
{
    String::from_str("unleash-client-rust:0.1.0")
}

} // verus!
