//! Plugin configuration.

use vstd::prelude::*;

verus! {

/// Where release archives are downloaded from when nothing else is configured: the
/// releases of the upstream repository, with a place for the version and one for
/// the file.
pub const DEFAULT_DIST_URL: &'static str =
    "https://github.com/protocolbuffers/protobuf/releases/download/v{version}/{file}";

/// Settings a user may give for this plugin.
#[derive(Debug)]
pub struct ProtocPluginConfig {
    /// URL template of a release archive: `{version}` stands for the version and
    /// `{file}` for the name of the archive.
    pub dist_url: String,
}

impl Default for ProtocPluginConfig {
    fn default() -> (res: Self)
        ensures
            res.dist_url@ == DEFAULT_DIST_URL@,
    {
        ProtocPluginConfig { dist_url: String::from_str(DEFAULT_DIST_URL) }
    }
}

} // verus!
