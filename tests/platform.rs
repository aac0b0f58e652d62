use rnm::error::RnmError;
use rnm::platform::{resolve, ArchiveKind};

#[test]
fn linux_x86_64() {
    let p = resolve("linux", "x86_64").unwrap();
    assert_eq!(p.extension(), "tar.gz");
    assert_eq!(p.os_name, "linux");
    assert_eq!(p.arch_name, "x64");
}

#[test]
fn windows_aarch64() {
    let p = resolve("windows", "aarch64").unwrap();
    assert_eq!(p.extension(), "zip");
    assert_eq!(p.archive, ArchiveKind::Zip);
    assert_eq!(p.os_name, "win");
    assert_eq!(p.arch_name, "arm64");
}

#[test]
fn macos_is_darwin() {
    let p = resolve("macos", "aarch64").unwrap();
    assert_eq!(p.extension(), "tar.gz");
    assert_eq!(p.os_name, "darwin");
}

#[test]
fn freebsd_is_unsupported_platform() {
    assert_eq!(
        resolve("freebsd", "x86_64"),
        Err(RnmError::UnsupportedPlatform("freebsd".to_string(), "x64".to_string()))
    );
}

#[test]
fn unknown_arch_is_checked_first() {
    assert_eq!(resolve("freebsd", "riscv64"), Err(RnmError::UnsupportedArch("riscv64".to_string())));
    assert_eq!(resolve("linux", "x86"), Err(RnmError::UnsupportedArch("x86".to_string())));
}
