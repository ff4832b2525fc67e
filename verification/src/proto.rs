//! What the plugin answers: the versions on offer, the archive to download for a
//! version on a platform, and where the executable lies once it is unpacked.

use crate::catalog::{
    catalog, is_latest_of, latest_version, lemma_catalog_holds_release,
    lemma_catalog_holds_the_releases, release_of, release_versions, texts, version_views,
};
use crate::config::ProtocPluginConfig;
use crate::error::{PluginError, PluginErrorView};
use crate::platform::{
    exe_file_name, exe_name, is_supported, target_label, target_of, HostArch, HostOS,
};
use crate::text::{same_text, substitute, substituted};
use crate::version::{native_text, to_protoc_version, Version, VersionSpec, VersionView};
use vstd::prelude::*;

verus! {

/// Name of the tool, as users read it.
pub const NAME: &'static str = "Protoc";

/// The archive to download.
#[derive(Debug, PartialEq, Eq)]
pub struct DownloadPrebuiltOutput {
    /// File name of the archive.
    pub download_name: String,
    /// Where the archive is downloaded from.
    pub download_url: String,
}

/// A `DownloadPrebuiltOutput` as a mathematical value.
pub struct DownloadPrebuiltOutputView {
    pub download_name: Seq<char>,
    pub download_url: Seq<char>,
}

impl View for DownloadPrebuiltOutput {
    type V = DownloadPrebuiltOutputView;

    open spec fn view(&self) -> DownloadPrebuiltOutputView {
        DownloadPrebuiltOutputView {
            download_name: self.download_name@,
            download_url: self.download_url@,
        }
    }
}

/// One executable of the tool.
#[derive(Debug, PartialEq, Eq)]
pub struct ExecutableConfig {
    /// Path of the file, from the install directory.
    pub exe_path: String,
    /// Whether this is the executable that the tool is named after.
    pub primary: bool,
}

/// An `ExecutableConfig` as a mathematical value.
pub struct ExecutableConfigView {
    pub exe_path: Seq<char>,
    pub primary: bool,
}

impl View for ExecutableConfig {
    type V = ExecutableConfigView;

    open spec fn view(&self) -> ExecutableConfigView {
        ExecutableConfigView { exe_path: self.exe_path@, primary: self.primary }
    }
}

/// Where the executables of an installed tool are found.
#[derive(Debug, PartialEq, Eq)]
pub struct LocateExecutablesOutput {
    /// The executables, each under its name.
    pub exes: Vec<(String, ExecutableConfig)>,
    /// Directory of the executables, from the install directory.
    pub exes_dir: String,
    /// Directories in which globally installed executables are looked for, in turn.
    pub globals_lookup_dirs: Vec<String>,
}

/// A `LocateExecutablesOutput` as a mathematical value.
pub struct LocateExecutablesOutputView {
    pub exes: Seq<(Seq<char>, ExecutableConfigView)>,
    pub exes_dir: Seq<char>,
    pub globals_lookup_dirs: Seq<Seq<char>>,
}

impl View for LocateExecutablesOutput {
    type V = LocateExecutablesOutputView;

    open spec fn view(&self) -> LocateExecutablesOutputView {
        LocateExecutablesOutputView {
            exes: self.exes@.map_values(|exe: (String, ExecutableConfig)| (exe.0@, exe.1@)),
            exes_dir: self.exes_dir@,
            globals_lookup_dirs: texts(self.globals_lookup_dirs@),
        }
    }
}

/// The versions on offer.
#[derive(Debug, PartialEq, Eq)]
pub struct LoadVersionsOutput {
    /// Every version, once, in the order of the tags.
    pub versions: Vec<Version>,
    /// The latest of them.
    pub latest: Option<Version>,
    /// Names that stand for a version.
    pub aliases: Vec<(String, Version)>,
}

/// A `LoadVersionsOutput` as a mathematical value.
pub struct LoadVersionsOutputView {
    pub versions: Seq<VersionView>,
    pub latest: Option<VersionView>,
    pub aliases: Seq<(Seq<char>, VersionView)>,
}

impl View for LoadVersionsOutput {
    type V = LoadVersionsOutputView;

    open spec fn view(&self) -> LoadVersionsOutputView {
        LoadVersionsOutputView {
            versions: version_views(self.versions@),
            latest: match self.latest {
                Some(version) => Some(version@),
                None => None,
            },
            aliases: self.aliases@.map_values(|alias: (String, Version)| (alias.0@, alias.1@)),
        }
    }
}

/// The file name of the archive of a release for a platform.
pub open spec fn archive_name(native: Seq<char>, label: Seq<char>) -> Seq<char> {
    "protoc-"@ + native + "-"@ + label + ".zip"@
}

/// A URL template with the version put in place of `{version}`, and then the file
/// name in place of `{file}`.
pub open spec fn download_url(template: Seq<char>, native: Seq<char>, file: Seq<char>) -> Seq<
    char,
> {
    substituted(substituted(template, "{version}"@, native), "{file}"@, file)
}

/// The archive of a release for the platform of a label: its file name, and the URL
/// that the template gives for it.
pub open spec fn archive(
    native: Seq<char>,
    label: Seq<char>,
    template: Seq<char>,
) -> DownloadPrebuiltOutputView {
    DownloadPrebuiltOutputView {
        download_name: archive_name(native, label),
        download_url: download_url(template, native, archive_name(native, label)),
    }
}

/// The aliases that go with a latest version: the name `latest` for it, and none
/// where there is no version.
pub open spec fn aliases_of(latest: Option<VersionView>) -> Seq<(Seq<char>, VersionView)> {
    match latest {
        Some(version) => seq![("latest"@, version)],
        None => Seq::empty(),
    }
}

/// Gathers the versions on offer from the tags of the upstream repository. Tags
/// that release no version are passed over.
///
/// Which versions are on offer, and which of them is the latest, depends on the
/// tags alone; their order shows only in the order of the list.
pub fn load_versions(tags: &Vec<String>) -> (out: LoadVersionsOutput)
    ensures
        out@.versions == catalog(texts(tags@)),
        forall|version: VersionView|
            out@.versions.contains(version) <==> exists|i: int|
                0 <= i < tags.len() && release_of(#[trigger] tags[i]@) == Some(version),
        is_latest_of(out@.versions, out@.latest),
        out@.aliases == aliases_of(out@.latest),
        out@.latest is None <==> out@.versions.len() == 0,
        forall|i: int|
            0 <= i < tags.len() && release_of(#[trigger] tags[i]@) is Some
                ==> out@.versions.contains(release_of(tags[i]@)->0) && out@.latest is Some,
{
    let versions = release_versions(tags);
    let latest = latest_version(&versions);
    let mut aliases: Vec<(String, Version)> = Vec::new();
    match &latest {
        Some(version) => {
            aliases.push((String::from_str("latest"), version.clone()));
        },
        None => {},
    }
    let out = LoadVersionsOutput { versions, latest, aliases };
    proof {
        assert forall|i: int|
            0 <= i < tags.len() && release_of(#[trigger] tags[i]@) is Some
            implies out@.versions.contains(release_of(tags[i]@)->0) && out@.latest is Some by {
            lemma_catalog_holds_release(texts(tags@), i);
        }
        assert forall|version: VersionView|
            out@.versions.contains(version) <==> exists|i: int|
                0 <= i < tags.len() && release_of(#[trigger] tags[i]@) == Some(version) by {
            lemma_catalog_holds_the_releases(texts(tags@), version);
        }
    }
    out
}

/// Tells whether a request can be served: the label of the platform in the name of
/// the archive, or why there is no archive.
///
/// A canary build has no archive, whatever the platform. Otherwise the platform has
/// to be one that archives are published for.
pub fn archive_target(canary: bool, os: HostOS, arch: HostArch) -> (res: Result<
    &'static str,
    PluginError,
>)
    ensures
        canary ==> (res matches Err(e) && e@ == (PluginErrorView::UnsupportedCanary {
            tool: NAME@,
        })),
        !canary && !is_supported(os, arch) ==> (res matches Err(e) && e@ == (
        PluginErrorView::UnsupportedPlatform { os, arch })),
        !canary && is_supported(os, arch) ==> (res matches Ok(label) && target_label(os, arch)
            == Some(label@)),
{
    if canary {
        return Err(PluginError::UnsupportedCanary { tool: String::from_str(NAME) });
    }
    match target_of(os, arch) {
        Some(label) => Ok(label),
        None => Err(PluginError::UnsupportedPlatform { os, arch }),
    }
}

/// Tells the archive of a version for the platform of a label: its file name, and
/// its URL after the template of the configuration.
pub fn archive_of(version: &VersionSpec, label: &str, config: &ProtocPluginConfig) -> (out:
    DownloadPrebuiltOutput)
    ensures
        out@ == archive(native_text(version@), label@, config.dist_url@),
{
    let native = to_protoc_version(version);
    let mut target = String::from_str("protoc-");
    target.append(native.as_str());
    target.append("-");
    target.append(label);
    let filename = target.concat(".zip");
    let with_version = substitute(config.dist_url.as_str(), "{version}", native.as_str());
    let url = substitute(with_version.as_str(), "{file}", filename.as_str());
    DownloadPrebuiltOutput { download_name: filename, download_url: url }
}

/// Tells the archive of a version for a platform: its file name, and its URL after
/// the template of the configuration.
///
/// A canary build has no archive, whatever the platform. Otherwise the platform has
/// to be one that archives are published for.
pub fn download_prebuilt(
    version: &VersionSpec,
    canary: bool,
    os: HostOS,
    arch: HostArch,
    config: &ProtocPluginConfig,
) -> (res: Result<DownloadPrebuiltOutput, PluginError>)
    ensures
        canary ==> (res matches Err(e) && e@ == (PluginErrorView::UnsupportedCanary {
            tool: NAME@,
        })),
        !canary && !is_supported(os, arch) ==> (res matches Err(e) && e@ == (
        PluginErrorView::UnsupportedPlatform { os, arch })),
        !canary && is_supported(os, arch) ==> (res matches Ok(out) && out@ == archive(
            native_text(version@),
            target_label(os, arch)->0,
            config.dist_url@,
        )),
{
    match archive_target(canary, os, arch) {
        Ok(label) => Ok(archive_of(version, label, config)),
        Err(error) => Err(error),
    }
}

/// Tells where the executable of the tool lies below the install directory, and
/// where executables that were installed globally are looked for.
pub fn locate_executables(os: HostOS) -> (out: LocateExecutablesOutput)
    ensures
        out@ == (LocateExecutablesOutputView {
            exes: seq![
                (
                    "protoc"@,
                    ExecutableConfigView {
                        exe_path: exe_file_name(os, "bin/protoc"@),
                        primary: true,
                    },
                ),
            ],
            exes_dir: "bin"@,
            globals_lookup_dirs: seq!["$TOOL_DIR/bin"@, "$HOME/.local/bin"@],
        }),
{
    let exes_dir = "bin";
    let mut exes: Vec<(String, ExecutableConfig)> = Vec::new();
    exes.push(
        (
            String::from_str("protoc"),
            ExecutableConfig { exe_path: exe_name(os, "bin/protoc"), primary: true },
        ),
    );
    let mut globals_lookup_dirs: Vec<String> = Vec::new();
    globals_lookup_dirs.push(String::from_str("$TOOL_DIR/").concat(exes_dir));
    globals_lookup_dirs.push(String::from_str("$HOME/.local/bin"));
    let out = LocateExecutablesOutput {
        exes,
        exes_dir: String::from_str(exes_dir),
        globals_lookup_dirs,
    };
    proof {
        reveal_strlit("$TOOL_DIR/");
        reveal_strlit("bin");
        reveal_strlit("$TOOL_DIR/bin");
        assert("$TOOL_DIR/"@ + "bin"@ =~= "$TOOL_DIR/bin"@);
        assert(out@.exes =~= seq![
            (
                "protoc"@,
                ExecutableConfigView { exe_path: exe_file_name(os, "bin/protoc"@), primary: true },
            ),
        ]);
        assert(out@.globals_lookup_dirs =~= seq!["$TOOL_DIR/bin"@, "$HOME/.local/bin"@]);
    }
    out
}

impl LocateExecutablesOutput {
    /// The executable of a name: the first entry under that name.
    pub fn exe(&self, name: &str) -> (res: Option<&ExecutableConfig>)
        ensures
            match res {
                Some(config) => exists|i: int|
                    0 <= i < self.exes.len() && #[trigger] self.exes[i].0@ == name@
                        && self.exes[i].1 == *config && forall|j: int|
                        0 <= j < i ==> (#[trigger] self.exes[j]).0@ != name@,
                None => forall|j: int|
                    0 <= j < self.exes.len() ==> (#[trigger] self.exes[j]).0@ != name@,
            },
    {
        let mut i: usize = 0;
        while i < self.exes.len()
            invariant
                i <= self.exes.len(),
                forall|j: int| 0 <= j < i ==> (#[trigger] self.exes[j]).0@ != name@,
            decreases self.exes.len() - i,
        {
            if same_text(self.exes[i].0.as_str(), name) {
                return Some(&self.exes[i].1);
            }
            i += 1;
        }
        None
    }
}

impl LoadVersionsOutput {
    /// The version that a name stands for: the first entry under that name.
    pub fn alias(&self, name: &str) -> (res: Option<&Version>)
        ensures
            match res {
                Some(version) => exists|i: int|
                    0 <= i < self.aliases.len() && #[trigger] self.aliases[i].0@ == name@
                        && self.aliases[i].1 == *version && forall|j: int|
                        0 <= j < i ==> (#[trigger] self.aliases[j]).0@ != name@,
                None => forall|j: int|
                    0 <= j < self.aliases.len() ==> (#[trigger] self.aliases[j]).0@ != name@,
            },
    {
        let mut i: usize = 0;
        while i < self.aliases.len()
            invariant
                i <= self.aliases.len(),
                forall|j: int| 0 <= j < i ==> (#[trigger] self.aliases[j]).0@ != name@,
            decreases self.aliases.len() - i,
        {
            if same_text(self.aliases[i].0.as_str(), name) {
                return Some(&self.aliases[i].1);
            }
            i += 1;
        }
        None
    }
}

} // verus!
