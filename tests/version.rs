use py_spy::error::SpyError;
use py_spy::scan::get_python_version;
use py_spy::spy::{layout_family, LayoutFamily};
use py_spy::version::Version;

fn version(major: u64, minor: u64, patch: u64, flags: &str) -> Version {
    Version { major, minor, patch, release_flags: flags.to_owned() }
}

#[test]
fn test_find_version() {
    let version = Version::scan_bytes(b"2.7.10 (default, Oct  6 2017, 22:29:07)").unwrap();
    assert_eq!(version, Version{major: 2, minor: 7, patch: 10, release_flags: "".to_owned()});

    let version = Version::scan_bytes(b"3.6.3 |Anaconda custom (64-bit)| (default, Oct  6 2017, 12:04:38)").unwrap();
    assert_eq!(version, Version{major: 3, minor: 6, patch: 3, release_flags: "".to_owned()});

    let version = Version::scan_bytes(b"Python 3.7.0rc1 (v3.7.0rc1:dfad352267, Jul 20 2018, 13:27:54)").unwrap();
    assert_eq!(version, Version{major: 3, minor: 7, patch: 0, release_flags: "rc1".to_owned()});

    let version = Version::scan_bytes(b"53.7.0rc1 (v53.7.0rc1:dfad352267, Jul 20 2018, 13:27:54)");
    assert!(version.is_err(), "Shouldn't allow v53 of python (yet)");

    let version = Version::scan_bytes(b"3.7 10 ");
    assert!(version.is_err(), "needs dotted version");

    let version = Version::scan_bytes(b"3.7.10fooboo ");
    assert!(version.is_err(), "limit suffixes");
}

#[test]
fn scan_reports_version_not_found() {
    assert_eq!(Version::scan_bytes(b""), Err(SpyError::VersionNotFound));
    assert_eq!(Version::scan_bytes(b"no version here"), Err(SpyError::VersionNotFound));
}

#[test]
fn scan_needs_text_after_the_space() {
    assert!(Version::scan_bytes(b"3.7.1 ").is_err());
    assert!(Version::scan_bytes(b"3.7.1 \n").is_err());
    assert_eq!(Version::scan_bytes(b"3.7.1 x").unwrap(), version(3, 7, 1, ""));
}

#[test]
fn scan_skips_to_first_valid_version() {
    let data = b"\x00\x0053.7.0 junk\x00Python 2.6.9b2 (x)";
    assert_eq!(Version::scan_bytes(data).unwrap(), version(2, 6, 9, "b2"));
}

#[test]
fn scan_takes_the_first_of_two_versions() {
    let data = b"3.5.2 first 3.6.0 second";
    assert_eq!(Version::scan_bytes(data).unwrap(), version(3, 5, 2, ""));
}

#[test]
fn scan_reads_each_release_tag() {
    assert_eq!(Version::scan_bytes(b"3.8.0a4 (x)").unwrap(), version(3, 8, 0, "a4"));
    assert_eq!(Version::scan_bytes(b"3.8.0b12 (x)").unwrap(), version(3, 8, 0, "b12"));
    assert_eq!(Version::scan_bytes(b"3.8.0c1 (x)").unwrap(), version(3, 8, 0, "c1"));
    assert_eq!(Version::scan_bytes(b"3.8.0rc22 (x)").unwrap(), version(3, 8, 0, "rc22"));
}

#[test]
fn scan_rejects_malformed_flags_and_patches() {
    assert!(Version::scan_bytes(b"3.8.0rc (x)").is_err());
    assert!(Version::scan_bytes(b"3.8.0rc123 (x)").is_err());
    assert!(Version::scan_bytes(b"3.8.100 (x)").is_err());
    assert!(Version::scan_bytes(b"3.8.0r1 (x)").is_err());
}

#[test]
fn version_to_string_prints_all_parts() {
    assert_eq!(version(3, 7, 0, "rc1").to_string(), "3.7.0rc1");
    assert_eq!(version(2, 7, 15, "").to_string(), "2.7.15");
    assert_eq!(version(10, 0, 123, "").to_string(), "10.0.123");
}

#[test]
fn version_round_trips_through_text() {
    for v in [version(2, 7, 10, ""), version(3, 7, 0, "rc1"), version(3, 8, 99, "b12"), version(0, 0, 0, "a1")] {
        let text = format!("{} (default)", v.to_string());
        assert_eq!(Version::scan_bytes(text.as_bytes()).unwrap(), v);
    }
}

#[test]
fn layout_family_covers_supported_versions() {
    assert_eq!(layout_family(&version(2, 3, 0, "")), Ok(LayoutFamily::V2_7));
    assert_eq!(layout_family(&version(2, 7, 15, "")), Ok(LayoutFamily::V2_7));
    assert_eq!(layout_family(&version(3, 3, 7, "")), Ok(LayoutFamily::V3_3));
    assert_eq!(layout_family(&version(3, 4, 1, "")), Ok(LayoutFamily::V3_5));
    assert_eq!(layout_family(&version(3, 5, 5, "")), Ok(LayoutFamily::V3_5));
    assert_eq!(layout_family(&version(3, 6, 6, "")), Ok(LayoutFamily::V3_6));
    assert_eq!(layout_family(&version(3, 7, 0, "")), Ok(LayoutFamily::V3_7));
    assert_eq!(layout_family(&version(3, 8, 0, "a1")), Ok(LayoutFamily::V3_7));
}

#[test]
fn layout_family_rejects_unknown_versions() {
    assert_eq!(layout_family(&version(2, 2, 0, "")), Err(SpyError::UnsupportedVersion));
    assert_eq!(layout_family(&version(3, 2, 0, "")), Err(SpyError::UnsupportedVersion));
    assert_eq!(layout_family(&version(3, 9, 0, "")), Err(SpyError::UnsupportedVersion));
    assert_eq!(layout_family(&version(4, 0, 0, "")), Err(SpyError::UnsupportedVersion));
}

#[test]
fn python_version_prefers_exported_text() {
    let v = get_python_version(Some(b"3.7.1 (x)"), b"2.7.1 (y)", None).unwrap();
    assert_eq!(v, version(3, 7, 1, ""));
    assert_eq!(get_python_version(Some(b"nothing"), b"2.7.1 (y)", None), Err(SpyError::VersionNotFound));
}

#[test]
fn python_version_falls_back_to_libpython() {
    let v = get_python_version(None, b"2.7.1 (y)", Some(b"3.6.1 (z)")).unwrap();
    assert_eq!(v, version(2, 7, 1, ""));
    let v = get_python_version(None, b"\x00\x00", Some(b"3.6.1 (z)")).unwrap();
    assert_eq!(v, version(3, 6, 1, ""));
    assert_eq!(get_python_version(None, b"\x00", None), Err(SpyError::VersionNotFound));
    assert_eq!(get_python_version(None, b"\x00", Some(b"\x00")), Err(SpyError::VersionNotFound));
}
