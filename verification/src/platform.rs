//! The systems a host may report, and the ones `protoc` is published for.

use vstd::prelude::*;

verus! {

/// Operating system of the host.
#[derive(Clone, Copy, Debug, PartialEq, Eq, Hash, Structural)]
pub enum HostOS {
    Android,
    Dragonfly,
    FreeBSD,
    IOS,
    Linux,
    MacOS,
    NetBSD,
    OpenBSD,
    Solaris,
    Windows,
}

/// Processor architecture of the host.
#[derive(Clone, Copy, Debug, PartialEq, Eq, Hash, Structural)]
pub enum HostArch {
    X86,
    X64,
    Arm,
    Arm64,
    LongArm64,
    M68k,
    Mips,
    Mips64,
    Powerpc,
    Powerpc64,
    Riscv64,
    S390x,
    Sparc64,
}

/// The part of an archive's name that tells the platform, for each platform that
/// archives are published for; `None` for every other pair.
pub open spec fn target_label(os: HostOS, arch: HostArch) -> Option<Seq<char>> {
    match (os, arch) {
        (HostOS::Linux, HostArch::Arm64) => Some("linux-aarch_64"@),
        (HostOS::Linux, HostArch::X64) => Some("linux-x86_64"@),
        (HostOS::MacOS, HostArch::Arm64) => Some("osx-aarch_64"@),
        (HostOS::MacOS, HostArch::X64) => Some("osx-x86_64"@),
        (HostOS::Windows, HostArch::X64) => Some("win64"@),
        (HostOS::Windows, HostArch::X86) => Some("win32"@),
        _ => None,
    }
}

/// Whether archives are published for this platform: Linux and macOS on X64 and
/// Arm64, Windows on X64 and X86.
pub open spec fn is_supported(os: HostOS, arch: HostArch) -> bool {
    ||| os == HostOS::Linux && (arch == HostArch::X64 || arch == HostArch::Arm64)
    ||| os == HostOS::MacOS && (arch == HostArch::X64 || arch == HostArch::Arm64)
    ||| os == HostOS::Windows && (arch == HostArch::X64 || arch == HostArch::X86)
}

/// The naming table has an entry exactly for the supported platforms.
pub proof fn lemma_label_iff_supported(os: HostOS, arch: HostArch)
    ensures
        target_label(os, arch) is Some <==> is_supported(os, arch),
{
}

/// Looks a platform up in the naming table.
pub fn target_of(os: HostOS, arch: HostArch) -> (label: Option<&'static str>)
    ensures
        label is Some <==> is_supported(os, arch),
        match label {
            Some(text) => target_label(os, arch) == Some(text@),
            None => target_label(os, arch) is None,
        },
{
    match (os, arch) {
        (HostOS::Linux, HostArch::Arm64) => Some("linux-aarch_64"),
        (HostOS::Linux, HostArch::X64) => Some("linux-x86_64"),
        (HostOS::MacOS, HostArch::Arm64) => Some("osx-aarch_64"),
        (HostOS::MacOS, HostArch::X64) => Some("osx-x86_64"),
        (HostOS::Windows, HostArch::X64) => Some("win64"),
        (HostOS::Windows, HostArch::X86) => Some("win32"),
        _ => None,
    }
}

/// The file name of an executable on `os`: `name` with `.exe` appended on Windows,
/// `name` itself on every other system.
pub open spec fn exe_file_name(os: HostOS, name: Seq<char>) -> Seq<char> {
    if os == HostOS::Windows {
        name + ".exe"@
    } else {
        name
    }
}

/// Asks `proto_pdk` for the file name of an executable on `os`.
///
/// Trusted: the body calls `HostOS::get_exe_name`, whose result is stated here as
/// its documentation gives it, a dot and `exe` after the name on Windows and the
/// name unchanged elsewhere.
#[verifier::external_body]
pub(crate) fn exe_name(os: HostOS, name: &str) -> (res: String)
    ensures
        res@ == exe_file_name(os, name@),
{
    let host = match os {
        HostOS::Android => proto_pdk::HostOS::Android,
        HostOS::Dragonfly => proto_pdk::HostOS::Dragonfly,
        HostOS::FreeBSD => proto_pdk::HostOS::FreeBSD,
        HostOS::IOS => proto_pdk::HostOS::IOS,
        HostOS::Linux => proto_pdk::HostOS::Linux,
        HostOS::MacOS => proto_pdk::HostOS::MacOS,
        HostOS::NetBSD => proto_pdk::HostOS::NetBSD,
        HostOS::OpenBSD => proto_pdk::HostOS::OpenBSD,
        HostOS::Solaris => proto_pdk::HostOS::Solaris,
        HostOS::Windows => proto_pdk::HostOS::Windows,
    };
    host.get_exe_name(name)
}

} // verus!
