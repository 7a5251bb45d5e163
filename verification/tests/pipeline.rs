use std::io::Write;
use xcinfo::archive::{Archive, ArchiveEntry};
use xcinfo::container::read_archive;
use xcinfo::error::ErrorKind;
use xcinfo::framework_info::{FrameworkInfo, LibraryInfo, PrivacyInfo};
use xcinfo::plist_tree::PlistValue;
use xcinfo::xcframework_processing::{build_report, collect_framework_info, report_from_manifest};

fn zip_of(files: &[(&str, &[u8])], compress: bool) -> Vec<u8> {
    let mut writer = zip::ZipWriter::new(std::io::Cursor::new(Vec::new()));
    let method = if compress { zip::CompressionMethod::Deflated } else { zip::CompressionMethod::Stored };
    let options = zip::write::SimpleFileOptions::default().compression_method(method);
    for (name, content) in files {
        if name.ends_with('/') {
            writer.add_directory(name.to_string(), options).unwrap();
        } else {
            writer.start_file(name.to_string(), options).unwrap();
            writer.write_all(content).unwrap();
        }
    }
    writer.finish().unwrap().into_inner()
}

fn xml(body: &str) -> Vec<u8> {
    format!("<?xml version=\"1.0\" encoding=\"UTF-8\"?>\n<plist version=\"1.0\">\n{}\n</plist>\n", body)
        .into_bytes()
}

fn descriptor_xml(identifier: &str, extra: &str) -> String {
    format!(
        "<dict><key>BinaryPath</key><string>Demo.framework/Demo</string>\
         <key>LibraryIdentifier</key><string>{}</string>\
         <key>LibraryPath</key><string>Demo.framework</string>\
         <key>SupportedArchitectures</key><array><string>arm64</string></array>\
         <key>SupportedPlatform</key><string>ios</string>{}</dict>",
        identifier, extra
    )
}

fn root_manifest(libraries: &str) -> Vec<u8> {
    xml(&format!(
        "<dict><key>AvailableLibraries</key><array>{}</array>\
         <key>CFBundlePackageType</key><string>XFWK</string>\
         <key>CFBundleName</key><string>DemoBundle</string>\
         <key>XCFrameworkFormatVersion</key><string>1.0</string></dict>",
        libraries
    ))
}

fn absent() -> PrivacyInfo {
    PrivacyInfo {
        present: false,
        tracking: None,
        tracking_domains: None,
        collected_data_types: None,
        accessed_api_types: None,
    }
}

#[test]
fn container_is_read_entry_by_entry() {
    let big = vec![7u8; 100_000];
    let bytes = zip_of(
        &[("top/", b""), ("top/a.txt", b"alpha"), ("top/empty", b""), ("top/big.bin", &big)],
        true,
    );
    let archive = read_archive(bytes).unwrap();
    assert_eq!(
        archive,
        Archive {
            entries: vec![
                ArchiveEntry { name: "top/".to_string(), size: 0, content: Vec::new() },
                ArchiveEntry { name: "top/a.txt".to_string(), size: 5, content: b"alpha".to_vec() },
                ArchiveEntry { name: "top/empty".to_string(), size: 0, content: Vec::new() },
                ArchiveEntry { name: "top/big.bin".to_string(), size: 100_000, content: big },
            ],
        }
    );
}

#[test]
fn bytes_that_are_no_archive_fail() {
    let e = read_archive(b"this is not a zip file".to_vec()).unwrap_err();
    assert_eq!(e.kind, ErrorKind::ArchiveUnreadable);
    assert!(e.message().starts_with("Failed to read the zip file: "));
    assert_eq!(read_archive(Vec::new()).unwrap_err().kind, ErrorKind::ArchiveUnreadable);
    assert_eq!(collect_framework_info(vec![0u8; 64]).unwrap_err().kind, ErrorKind::ArchiveUnreadable);
}

#[test]
fn an_entry_with_damaged_bytes_fails_the_container() {
    let payload = b"payload-payload-payload";
    let mut bytes = zip_of(&[("a.txt", payload)], false);
    let at = bytes.windows(payload.len()).position(|w| w == payload).unwrap();
    bytes[at] ^= 0xFF;
    assert_eq!(read_archive(bytes).unwrap_err().kind, ErrorKind::ArchiveUnreadable);
}

#[test]
fn archive_without_root_manifest_fails() {
    let bytes = zip_of(
        &[
            ("Demo.xcframework/ios-arm64/Demo.framework/Demo", b"binary"),
            ("Demo.xcframework/ios-arm64/Demo.framework/Modules/Demo.swiftmodule/arm64.swiftinterface", b"import Swift\n"),
        ],
        false,
    );
    let e = collect_framework_info(bytes).unwrap_err();
    assert_eq!(e.kind, ErrorKind::ManifestMissing);
    assert_eq!(e.message(), "Info.plist not found in the archive");
}

#[test]
fn empty_archive_fails_for_want_of_a_manifest() {
    let bytes = zip_of(&[], false);
    assert_eq!(collect_framework_info(bytes).unwrap_err().kind, ErrorKind::ManifestMissing);
    assert_eq!(build_report(&Archive { entries: Vec::new() }).unwrap_err().kind, ErrorKind::ManifestMissing);
}

#[test]
fn root_manifest_must_decode_to_a_dictionary() {
    let bytes = zip_of(&[("Demo.xcframework/Info.plist", b"garbage")], false);
    let e = collect_framework_info(bytes).unwrap_err();
    assert_eq!(e.kind, ErrorKind::ManifestUndecodable);
    assert!(e.message().starts_with("Failed to read Info.plist: "));
    let bytes = zip_of(&[("Demo.xcframework/Info.plist", &xml("<array><string>x</string></array>"))], false);
    let e = collect_framework_info(bytes).unwrap_err();
    assert_eq!(e.kind, ErrorKind::ManifestNotDictionary);
    assert_eq!(e.message(), "Info.plist is not a dictionary");
}

#[test]
fn whole_report() {
    let binary = vec![0u8; 1_234_567];
    let manifest = root_manifest(&format!(
        "{}{}{}",
        descriptor_xml(
            "ios-arm64",
            "<key>MergeableMetadata</key><true/><key>MinimumOSVersion</key><string>13.0</string>"
        ),
        "<dict><key>LibraryIdentifier</key><string>broken</string></dict>",
        descriptor_xml("ios-arm64_x86_64-simulator", "<key>SupportedPlatformVariant</key><string>simulator</string>"),
    ));
    let interface = b"// swift-interface-format-version: 1.0\n\
// swift-compiler-version: Apple Swift version 5.9.2 (swiftlang-5.9.2.2.56 clang-1500.1.0.2.5)\n\
// swift-module-flags: -target arm64-apple-ios13.0 -enable-objc-interop -enable-library-evolution -swift-version 5 -O -module-name Demo\n\
import Foundation\nimport Swift\nimport Foundation\n@_exported import UIKit\nimport _Concurrency\n";
    let simulator_interface = b"import Swift\nimport Combine\n";
    let bytes = zip_of(
        &[
            ("Demo.xcframework/", b""),
            ("Demo.xcframework/Info.plist", &manifest),
            ("Demo.xcframework/ios-arm64/Demo.framework/Demo", &binary),
            (
                "Demo.xcframework/ios-arm64/Demo.framework/Info.plist",
                &xml("<dict><key>CFBundleShortVersionString</key><string>2.1.0</string></dict>"),
            ),
            ("Demo.xcframework/ios-arm64/Demo.framework/Modules/Demo.swiftmodule/arm64-apple-ios.swiftinterface", interface),
            ("Demo.xcframework/ios-arm64/Demo.framework/Modules/Demo.swiftmodule/arm64-apple-ios.private.swiftinterface", b"import Foundation\nimport os\n"),
            (
                "Demo.xcframework/ios-arm64/Demo.framework/PrivacyInfo.xcprivacy",
                &xml("<dict><key>NSPrivacyTracking</key><false/><key>NSPrivacyTrackingDomains</key><array/></dict>"),
            ),
            ("Demo.xcframework/ios-arm64_x86_64-simulator/Demo.framework/Modules/Demo.swiftmodule/x86_64.swiftinterface", simulator_interface),
        ],
        true,
    );
    let report = collect_framework_info(bytes).unwrap();
    let expected = FrameworkInfo {
        framework_name: Some("Demo".to_string()),
        is_mergeable: true,
        swift_compiler_info: Some("Apple Swift version 5.9.2 (swiftlang-5.9.2.2.56 clang-1500.1.0.2.5)".to_string()),
        swift_compiler_version: Some("5.9.2.2.56".to_string()),
        swift_version: Some("5".to_string()),
        library_evolution_enabled: true,
        built_for_distribution: true,
        available_libraries: Some(vec![
            LibraryInfo {
                binary_path: "Demo.framework/Demo".to_string(),
                library_identifier: "ios-arm64".to_string(),
                library_path: "Demo.framework".to_string(),
                marketing_version: Some("2.1.0".to_string()),
                mergeable_metadata: Some(true),
                supported_architectures: vec!["arm64".to_string()],
                supported_platform: "ios".to_string(),
                supported_platform_variant: None,
                minimum_os_version: Some("13.0".to_string()),
                size: Some("1.23 MB".to_string()),
                dependencies: vec![
                    "Foundation".to_string(),
                    "Swift".to_string(),
                    "_Concurrency".to_string(),
                    "os".to_string(),
                ],
                privacy_info: Some(PrivacyInfo {
                    present: true,
                    tracking: Some(false),
                    tracking_domains: Some(Vec::new()),
                    collected_data_types: None,
                    accessed_api_types: None,
                }),
            },
            LibraryInfo {
                binary_path: "Demo.framework/Demo".to_string(),
                library_identifier: "ios-arm64_x86_64-simulator".to_string(),
                library_path: "Demo.framework".to_string(),
                marketing_version: None,
                mergeable_metadata: None,
                supported_architectures: vec!["arm64".to_string()],
                supported_platform: "ios".to_string(),
                supported_platform_variant: Some("simulator".to_string()),
                minimum_os_version: None,
                size: Some("1.23 MB".to_string()),
                dependencies: vec!["Swift".to_string(), "Combine".to_string()],
                privacy_info: Some(absent()),
            },
        ]),
    };
    assert_eq!(report, expected);
}

#[test]
fn manifest_without_libraries_has_no_list() {
    let bytes = zip_of(
        &[(
            "Demo.xcframework/Info.plist",
            &xml("<dict><key>CFBundleName</key><string>Plain</string><key>DTSDKBuild</key><true/></dict>"),
        )],
        false,
    );
    assert_eq!(
        collect_framework_info(bytes),
        Ok(FrameworkInfo {
            framework_name: Some("Plain".to_string()),
            is_mergeable: false,
            swift_compiler_info: None,
            swift_compiler_version: None,
            swift_version: None,
            library_evolution_enabled: false,
            built_for_distribution: true,
            available_libraries: None,
        })
    );
}

#[test]
fn broken_privacy_manifest_fails_the_report() {
    let bytes = zip_of(
        &[
            ("Demo.xcframework/Info.plist", &root_manifest(&descriptor_xml("ios-arm64", ""))),
            ("Demo.xcframework/ios-arm64/Demo.framework/PrivacyInfo.xcprivacy", &xml("<string>none</string>")),
        ],
        false,
    );
    assert_eq!(collect_framework_info(bytes).unwrap_err().kind, ErrorKind::PrivacyManifestNotDictionary);
}

#[test]
fn report_from_a_decoded_manifest() {
    let archive = Archive {
        entries: vec![ArchiveEntry {
            name: "x/Modules/m.swiftinterface".to_string(),
            size: 0,
            content: b"// swift-module-flags: -module-name FromInterface\n".to_vec(),
        }],
    };
    let manifest = PlistValue::Dictionary(vec![
        ("CFBundleName".to_string(), PlistValue::String("FromManifest".to_string())),
        ("DTSDKBuild".to_string(), PlistValue::Boolean(false)),
        ("AvailableLibraries".to_string(), PlistValue::Array(Vec::new())),
    ]);
    assert_eq!(
        report_from_manifest(&archive, &manifest),
        Ok(FrameworkInfo {
            framework_name: Some("FromInterface".to_string()),
            is_mergeable: false,
            swift_compiler_info: None,
            swift_compiler_version: None,
            swift_version: None,
            library_evolution_enabled: false,
            built_for_distribution: false,
            available_libraries: Some(Vec::new()),
        })
    );
}
