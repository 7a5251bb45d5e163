use xcinfo::archive::{Archive, ArchiveEntry};
use xcinfo::utils::{calculate_library_size, ensure_unique_ordered};

fn strings(items: &[&str]) -> Vec<String> {
    items.iter().map(|s| s.to_string()).collect()
}

#[test]
fn repetitions_leave_and_first_occurrences_stay_in_order() {
    assert_eq!(
        ensure_unique_ordered(strings(&["b", "a", "b", "c", "a", "b"])),
        strings(&["b", "a", "c"])
    );
}

#[test]
fn a_list_without_repetitions_stays_as_it_is() {
    assert_eq!(ensure_unique_ordered(strings(&["z", "y", "x"])), strings(&["z", "y", "x"]));
    assert_eq!(ensure_unique_ordered(Vec::new()), Vec::<String>::new());
}

#[test]
fn three_equal_items_leave_one() {
    assert_eq!(
        ensure_unique_ordered(strings(&["Foundation", "Foundation", "Foundation"])),
        strings(&["Foundation"])
    );
}

fn archive() -> Archive {
    Archive {
        entries: vec![
            ArchiveEntry { name: "A.xcframework/ios/A.framework/A".to_string(), size: 1_536, content: Vec::new() },
            ArchiveEntry { name: "A.xcframework/mac/A.framework/A".to_string(), size: 2_500_000, content: Vec::new() },
            ArchiveEntry { name: "A.xcframework/mac/B.framework/B".to_string(), size: 999_999, content: vec![1, 2] },
        ],
    }
}

#[test]
fn size_is_that_of_the_first_entry_ending_with_the_path() {
    assert_eq!(calculate_library_size(&archive(), "A.framework/A"), Ok("1.54 KB".to_string()));
    assert_eq!(calculate_library_size(&archive(), "mac/A.framework/A"), Ok("2.50 MB".to_string()));
    assert_eq!(calculate_library_size(&archive(), "B.framework/B"), Ok("1000.00 KB".to_string()));
}

#[test]
fn size_goes_by_the_recorded_length() {
    let a = Archive {
        entries: vec![ArchiveEntry { name: "x/Bin".to_string(), size: 1_000_000, content: vec![0; 3] }],
    };
    assert_eq!(calculate_library_size(&a, "Bin"), Ok("1.00 MB".to_string()));
}

#[test]
fn a_missing_binary_is_reported_by_name() {
    assert_eq!(
        calculate_library_size(&archive(), "C.framework/C"),
        Err("Binary file 'C.framework/C' not found in archive.".to_string())
    );
}
