use xcinfo::archive::{Archive, ArchiveEntry};
use xcinfo::framework_info::FrameworkInfo;
use xcinfo::xcframework_processing::swift_details::{
    apply_interface_line, extract_swift_details, flag_value, has_flag, swiftlang_version,
    text_after_first_dash,
};

fn blank() -> FrameworkInfo {
    FrameworkInfo {
        framework_name: None,
        is_mergeable: false,
        swift_compiler_info: None,
        swift_compiler_version: None,
        swift_version: None,
        library_evolution_enabled: false,
        built_for_distribution: false,
        available_libraries: None,
    }
}

fn words(items: &[&str]) -> Vec<String> {
    items.iter().map(|s| s.to_string()).collect()
}

fn entry(name: &str, content: &[u8]) -> ArchiveEntry {
    ArchiveEntry { name: name.to_string(), size: content.len() as u64, content: content.to_vec() }
}

#[test]
fn compiler_line_is_kept_and_names_the_version() {
    let mut info = blank();
    apply_interface_line(
        &mut info,
        "// swift-compiler-version: Apple Swift version 5.9.2 (swiftlang-5.9.2.2.56 clang-1500.1.0.2.5)",
    );
    assert_eq!(
        info.swift_compiler_info,
        Some("Apple Swift version 5.9.2 (swiftlang-5.9.2.2.56 clang-1500.1.0.2.5)".to_string())
    );
    assert_eq!(info.swift_compiler_version, Some("5.9.2.2.56".to_string()));
    assert_eq!(info.framework_name, None);
    assert_eq!(info.swift_version, None);
    assert!(!info.library_evolution_enabled);
}

#[test]
fn compiler_line_without_a_swiftlang_word_keeps_the_earlier_version() {
    let mut info = blank();
    info.swift_compiler_version = Some("1.0".to_string());
    apply_interface_line(&mut info, "// swift-compiler-version: Some Other Compiler 7");
    assert_eq!(info.swift_compiler_info, Some("Some Other Compiler 7".to_string()));
    assert_eq!(info.swift_compiler_version, Some("1.0".to_string()));
}

#[test]
fn version_is_what_follows_the_first_dash() {
    let chars: Vec<char> = "(swiftlang-5.9-beta".chars().collect();
    assert_eq!(text_after_first_dash(&chars), "5.9-beta");
    let chars: Vec<char> = "swiftlang-".chars().collect();
    assert_eq!(text_after_first_dash(&chars), "");
    let chars: Vec<char> = "nodash".chars().collect();
    assert_eq!(text_after_first_dash(&chars), "");
    assert_eq!(
        swiftlang_version(&words(&["x-1", "a-swiftlang-2", "swiftlang-3"])),
        Some("swiftlang-2".to_string())
    );
    assert_eq!(swiftlang_version(&words(&["swiftlang", "clang-15"])), None);
}

#[test]
fn flags_line_sets_name_version_and_evolution() {
    let mut info = blank();
    info.framework_name = Some("FromManifest".to_string());
    apply_interface_line(
        &mut info,
        "// swift-module-flags: -target arm64-apple-ios13.0 -enable-objc-interop -enable-library-evolution -swift-version 5 -O -module-name Demo",
    );
    assert_eq!(info.framework_name, Some("Demo".to_string()));
    assert_eq!(info.swift_version, Some("5".to_string()));
    assert!(info.library_evolution_enabled);
    assert_eq!(info.swift_compiler_info, None);
}

#[test]
fn evolution_flag_counts_at_any_position() {
    let lines = [
        "// swift-module-flags: -enable-library-evolution",
        "// swift-module-flags: -enable-library-evolution -module-name Demo",
        "// swift-module-flags: -module-name Demo -enable-library-evolution",
        "// swift-module-flags: -O -enable-library-evolution -swift-version 5",
        "// swift-module-flags: -module-name -enable-library-evolution",
        "// swift-module-flags:    -O\t-enable-library-evolution   ",
    ];
    for line in lines {
        let mut info = blank();
        apply_interface_line(&mut info, line);
        assert!(info.library_evolution_enabled, "{}", line);
    }
}

#[test]
fn evolution_flag_needs_the_whole_word() {
    let lines = [
        "// swift-module-flags: -enable-library-evolutions",
        "// swift-module-flags: enable-library-evolution",
        "// swift-module-flags: -O -module-name Demo",
        "// swift-module-flag: -enable-library-evolution",
        " // swift-module-flags: -enable-library-evolution",
        "-enable-library-evolution",
    ];
    for line in lines {
        let mut info = blank();
        apply_interface_line(&mut info, line);
        assert!(!info.library_evolution_enabled, "{}", line);
    }
}

#[test]
fn a_flag_at_the_end_has_no_value() {
    let mut info = blank();
    apply_interface_line(&mut info, "// swift-module-flags: -swift-version 5 -module-name");
    assert_eq!(info.framework_name, None);
    assert_eq!(info.swift_version, Some("5".to_string()));
}

#[test]
fn the_last_occurrence_of_a_flag_wins() {
    assert_eq!(
        flag_value(&words(&["-module-name", "A", "-module-name", "B", "-O"]), "-module-name"),
        Some("B".to_string())
    );
    assert_eq!(
        flag_value(&words(&["-module-name", "A", "-module-name"]), "-module-name"),
        Some("A".to_string())
    );
    assert_eq!(
        flag_value(&words(&["-module-name", "-module-name"]), "-module-name"),
        Some("-module-name".to_string())
    );
    assert_eq!(flag_value(&words(&["-module-name"]), "-module-name"), None);
    assert_eq!(flag_value(&words(&[]), "-module-name"), None);
    assert_eq!(flag_value(&words(&["-O", "x"]), "-module-name"), None);
}

#[test]
fn a_value_is_still_read_as_a_flag() {
    let mut info = blank();
    apply_interface_line(&mut info, "// swift-module-flags: -module-name -swift-version 6");
    assert_eq!(info.framework_name, Some("-swift-version".to_string()));
    assert_eq!(info.swift_version, Some("6".to_string()));
}

#[test]
fn has_flag_looks_at_every_word() {
    assert!(has_flag(&words(&["a", "b", "c"]), "c"));
    assert!(has_flag(&words(&["a", "b", "c"]), "a"));
    assert!(!has_flag(&words(&["a", "b", "c"]), "d"));
    assert!(!has_flag(&words(&[]), "a"));
}

#[test]
fn other_lines_change_nothing() {
    let mut info = blank();
    info.swift_version = Some("4".to_string());
    for line in ["", "import Foundation", "// swift-interface-format-version: 1.0", "//swift-module-flags: -O"] {
        apply_interface_line(&mut info, line);
    }
    let mut expected = blank();
    expected.swift_version = Some("4".to_string());
    assert_eq!(info, expected);
}

#[test]
fn only_the_first_interface_of_the_archive_is_read() {
    let archive = Archive {
        entries: vec![
            entry("A.xcframework/Info.plist", b"ignored"),
            entry(
                "A.xcframework/ios/A.framework/Modules/A.swiftmodule/arm64.swiftinterface",
                b"// swift-interface-format-version: 1.0\r\n// swift-compiler-version: Apple Swift version 5.10 (swiftlang-5.10.0.13 clang-1500.3.9.4)\r\n// swift-module-flags: -module-name First -swift-version 5\r\nimport Swift\r\n",
            ),
            entry(
                "A.xcframework/mac/A.framework/Modules/A.swiftmodule/x86_64.swiftinterface",
                b"// swift-module-flags: -module-name Second -enable-library-evolution\n",
            ),
        ],
    };
    let mut info = blank();
    info.framework_name = Some("Manifest".to_string());
    info.is_mergeable = true;
    extract_swift_details(&archive, &mut info);
    assert_eq!(info.framework_name, Some("First".to_string()));
    assert_eq!(info.swift_version, Some("5".to_string()));
    assert_eq!(
        info.swift_compiler_info,
        Some("Apple Swift version 5.10 (swiftlang-5.10.0.13 clang-1500.3.9.4)".to_string())
    );
    assert_eq!(info.swift_compiler_version, Some("5.10.0.13".to_string()));
    assert!(!info.library_evolution_enabled);
    assert!(info.is_mergeable);
}

#[test]
fn later_lines_override_earlier_ones() {
    let archive = Archive {
        entries: vec![entry(
            "x.swiftinterface",
            b"// swift-module-flags: -module-name A -enable-library-evolution\n// swift-module-flags: -module-name B\n// swift-compiler-version: one (swiftlang-1 x)\n// swift-compiler-version: two",
        )],
    };
    let mut info = blank();
    extract_swift_details(&archive, &mut info);
    assert_eq!(info.framework_name, Some("B".to_string()));
    assert!(info.library_evolution_enabled);
    assert_eq!(info.swift_compiler_info, Some("two".to_string()));
    assert_eq!(info.swift_compiler_version, Some("1".to_string()));
}

#[test]
fn a_line_that_is_not_utf8_is_passed_over() {
    let mut content = b"// swift-module-flags: -module-name \xff\xfe\n".to_vec();
    content.extend_from_slice(b"// swift-module-flags: -swift-version 5\n");
    let archive = Archive { entries: vec![entry("x.swiftinterface", &content)] };
    let mut info = blank();
    extract_swift_details(&archive, &mut info);
    assert_eq!(info.framework_name, None);
    assert_eq!(info.swift_version, Some("5".to_string()));
}

#[test]
fn without_an_interface_the_report_stays() {
    let archive = Archive { entries: vec![entry("A.xcframework/Info.plist", b"// swift-module-flags: -module-name X")] };
    let mut info = blank();
    info.framework_name = Some("Manifest".to_string());
    extract_swift_details(&archive, &mut info);
    let mut expected = blank();
    expected.framework_name = Some("Manifest".to_string());
    assert_eq!(info, expected);
}
