//! What can go wrong while resolving a version or an archive.

use crate::platform::{HostArch, HostOS};
use vstd::prelude::*;

verus! {

/// Why a request could not be served.
#[derive(Debug, PartialEq, Eq)]
pub enum PluginError {
    /// A canary build was asked for; none is published as an archive.
    UnsupportedCanary { tool: String },
    /// No archive is published for this operating system on this architecture.
    UnsupportedPlatform { os: HostOS, arch: HostArch },
    /// The text is no version: its numeric base is not three numbers.
    MalformedVersion { version: String },
}

/// A `PluginError` with its texts as sequences of characters.
pub enum PluginErrorView {
    UnsupportedCanary { tool: Seq<char> },
    UnsupportedPlatform { os: HostOS, arch: HostArch },
    MalformedVersion { version: Seq<char> },
}

impl View for PluginError {
    type V = PluginErrorView;

    open spec fn view(&self) -> PluginErrorView {
        match *self {
            PluginError::UnsupportedCanary { tool } => PluginErrorView::UnsupportedCanary {
                tool: tool@,
            },
            PluginError::UnsupportedPlatform { os, arch } => PluginErrorView::UnsupportedPlatform {
                os,
                arch,
            },
            PluginError::MalformedVersion { version } => PluginErrorView::MalformedVersion {
                version: version@,
            },
        }
    }
}

} // verus!
