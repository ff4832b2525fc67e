//! Version translation and artifact resolution for the `protoc` toolchain.
//!
//! `protoc` is released as one archive per platform, under versions of two
//! components. This library tells, for a version and a platform, which archive to
//! download and from where; which versions the tags of the upstream repository
//! release; and where the executable lies once an archive is unpacked.
//!
//! - [`version`]: canonical versions, and how the release scheme writes them.
//! - [`label`]: the order of prerelease labels.
//! - [`catalog`]: the versions that a list of tags releases, and the latest of them.
//! - [`platform`]: operating systems and architectures, and the platforms that
//!   archives are published for.
//! - [`proto`]: the three answers of the plugin, over plain values.
//! - [`config`], [`error`], [`text`]: the configuration, the errors, and the text
//!   operations that the rest is built on.

pub mod catalog;
pub mod config;
pub mod error;
pub mod label;
pub mod platform;
pub mod proto;
pub mod text;
pub mod version;
