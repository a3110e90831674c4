use vstd::prelude::*;

verus! {

/// How the object store holding deployment archives is addressed.
pub enum BucketAddressing {
    /// The region's own virtual-host endpoint.
    Region { region: String },
    /// Path-style requests against a configured endpoint.
    PathStyle { region: String, endpoint: String },
}

/// Picks the object store's addressing: path style against `endpoint` where
/// one is configured, else the region's default endpoint.
pub fn bucket_addressing(region: String, endpoint: Option<String>) -> (r: BucketAddressing)
    ensures
        match endpoint {
            None => r matches BucketAddressing::Region { region: g } && g == region,
            Some(e) => r matches BucketAddressing::PathStyle { region: g, endpoint: f } && g
                == region && f == e,
        },
{
    match endpoint {
        None => BucketAddressing::Region { region },
        Some(endpoint) => BucketAddressing::PathStyle { region, endpoint },
    }
}

/// The script that tells a worker's scripts where their deployment lies.
pub fn cwd_script(dir: &str) -> (r: String)
    ensures
        r@ == "window.cwd = \""@ + dir@ + "\";"@,
{
    let mut out = String::from_str("window.cwd = \"");
    out.append(dir);
    out.append("\";");
    out
}

} // verus!
