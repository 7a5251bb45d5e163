use xcinfo::error::{ErrorKind, ReportError};

#[test]
fn a_failure_without_detail_is_its_headline() {
    assert_eq!(ReportError::new(ErrorKind::ManifestMissing).message(), "Info.plist not found in the archive");
    assert_eq!(
        ReportError::new(ErrorKind::PrivacyManifestNotDictionary).message(),
        "PrivacyInfo.xcprivacy is not a dictionary"
    );
    assert_eq!(ReportError::new(ErrorKind::ManifestNotDictionary).message(), "Info.plist is not a dictionary");
}

#[test]
fn a_detail_follows_the_headline() {
    let e = ReportError::with_detail(ErrorKind::ManifestUndecodable, "unexpected end".to_string());
    assert_eq!(e.kind, ErrorKind::ManifestUndecodable);
    assert_eq!(e.message(), "Failed to read Info.plist: unexpected end");
    let e = ReportError::with_detail(ErrorKind::ArchiveUnreadable, "invalid Zip archive".to_string());
    assert_eq!(e.message(), "Failed to read the zip file: invalid Zip archive");
    let e = ReportError::with_detail(ErrorKind::PrivacyManifestUndecodable, "é".to_string());
    assert_eq!(e.message(), "Failed to parse PrivacyInfo.xcprivacy: é");
}

#[test]
fn an_empty_detail_adds_nothing() {
    let e = ReportError::with_detail(ErrorKind::ArchiveUnreadable, String::new());
    assert_eq!(e.message(), "Failed to read the zip file");
}
