//! Mapping the running system to the distributor's names for its artifacts.
use vstd::prelude::*;
use crate::error::RnmError;
use crate::text::str_eq;

verus! {

/// The archive format a release is published in.
#[derive(Clone, Copy, Debug, PartialEq, Eq, Structural)]
pub enum ArchiveKind {
    Zip,
    TarGz,
}

/// The distributor's names for one operating system and architecture.
#[derive(Clone, Debug, PartialEq, Eq)]
pub struct Platform {
    pub archive: ArchiveKind,
    pub os_name: String,
    pub arch_name: String,
}

pub open spec fn extension_of(k: ArchiveKind) -> Seq<char> {
    match k {
        ArchiveKind::Zip => "zip"@,
        ArchiveKind::TarGz => "tar.gz"@,
    }
}

/// The distributor's name of an architecture, if it is supported.
pub open spec fn arch_name_of(arch: Seq<char>) -> Option<Seq<char>> {
    if arch == "x86_64"@ {
        Some("x64"@)
    } else if arch == "aarch64"@ {
        Some("arm64"@)
    } else {
        None
    }
}

/// The distributor's name of an operating system, if it is supported.
pub open spec fn os_name_of(os: Seq<char>) -> Option<Seq<char>> {
    if os == "linux"@ {
        Some("linux"@)
    } else if os == "windows"@ {
        Some("win"@)
    } else if os == "macos"@ {
        Some("darwin"@)
    } else {
        None
    }
}

pub open spec fn archive_of(os: Seq<char>) -> ArchiveKind {
    if os == "windows"@ {
        ArchiveKind::Zip
    } else {
        ArchiveKind::TarGz
    }
}

impl ArchiveKind {
    /// The file extension, `zip` or `tar.gz`.
    pub fn extension(&self) -> (r: &'static str)
        ensures
            r@ == extension_of(*self),
    {
        match self {
            ArchiveKind::Zip => "zip",
            ArchiveKind::TarGz => "tar.gz",
        }
    }
}

impl Platform {
    /// The file extension of this platform's archives.
    pub fn extension(&self) -> (r: String)
        ensures
            r@ == extension_of(self.archive),
    {
        String::from_str(self.archive.extension())
    }
}

/// Resolves an operating system and architecture, as the standard library names
/// them, to the distributor's names. The architecture is checked first.
pub fn resolve(os: &str, arch: &str) -> (r: Result<Platform, RnmError>)
    ensures
        arch_name_of(arch@) is None ==> (r matches Err(RnmError::UnsupportedArch(a))
            && a@ == arch@),
        arch_name_of(arch@) is Some && os_name_of(os@) is None ==> (r matches Err(
            RnmError::UnsupportedPlatform(o, a),
        ) && o@ == os@ && a@ == arch_name_of(arch@).unwrap()),
        arch_name_of(arch@) is Some && os_name_of(os@) is Some ==> (r matches Ok(p)
            && p.os_name@ == os_name_of(os@).unwrap() && p.arch_name@ == arch_name_of(
            arch@,
        ).unwrap() && p.archive == archive_of(os@)),
{
    proof {
        reveal_strlit("x86_64");
        reveal_strlit("aarch64");
        reveal_strlit("x64");
        reveal_strlit("arm64");
        reveal_strlit("linux");
        reveal_strlit("windows");
        reveal_strlit("macos");
        reveal_strlit("win");
        reveal_strlit("darwin");
    }
    let arch_name = if str_eq(arch, "x86_64") {
        "x64"
    } else if str_eq(arch, "aarch64") {
        "arm64"
    } else {
        return Err(RnmError::UnsupportedArch(String::from_str(arch)));
    };
    let archive = if str_eq(os, "windows") {
        ArchiveKind::Zip
    } else {
        ArchiveKind::TarGz
    };
    let os_name = if str_eq(os, "linux") {
        "linux"
    } else if str_eq(os, "windows") {
        "win"
    } else if str_eq(os, "macos") {
        "darwin"
    } else {
        return Err(
            RnmError::UnsupportedPlatform(String::from_str(os), String::from_str(arch_name)),
        );
    };
    Ok(Platform { archive, os_name: String::from_str(os_name), arch_name: String::from_str(arch_name) })
}

} // verus!
