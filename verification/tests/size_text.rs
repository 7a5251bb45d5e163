use xcinfo::size_text::{format_size, hundredths_of, nearest_double_of, rounded_quotient};

fn by_floating_point(size: u64) -> String {
    if size >= 1_000_000 {
        format!("{:.2} MB", size as f64 / 1_000_000.0)
    } else {
        format!("{:.2} KB", size as f64 / 1_000.0)
    }
}

#[test]
fn size_just_below_the_boundary_is_in_kilobytes() {
    assert_eq!(format_size(999_999), "1000.00 KB");
}

#[test]
fn size_at_the_boundary_is_in_megabytes() {
    assert_eq!(format_size(1_000_000), "1.00 MB");
}

#[test]
fn zero_bytes() {
    assert_eq!(format_size(0), "0.00 KB");
}

#[test]
fn small_sizes_have_exact_texts() {
    assert_eq!(format_size(1), "0.00 KB");
    assert_eq!(format_size(5), "0.01 KB");
    assert_eq!(format_size(125), "0.12 KB");
    assert_eq!(format_size(375), "0.38 KB");
    assert_eq!(format_size(1_015), "1.01 KB");
    assert_eq!(format_size(1_035), "1.03 KB");
    assert_eq!(format_size(1_536), "1.54 KB");
    assert_eq!(format_size(2_500_000), "2.50 MB");
    assert_eq!(format_size(123_456_789), "123.46 MB");
}

fn agree_on(range: std::ops::Range<u64>) {
    for size in range {
        assert_eq!(format_size(size), by_floating_point(size), "size {}", size);
    }
}

#[test]
fn kilobyte_sizes_match_floating_point_first_quarter() {
    agree_on(0..250_000);
}

#[test]
fn kilobyte_sizes_match_floating_point_second_quarter() {
    agree_on(250_000..500_000);
}

#[test]
fn kilobyte_sizes_match_floating_point_third_quarter() {
    agree_on(500_000..750_000);
}

#[test]
fn kilobyte_sizes_match_floating_point_last_quarter() {
    agree_on(750_000..1_000_000);
}

#[test]
fn megabyte_sizes_match_floating_point() {
    agree_on(1_000_000..1_200_000);
    let mut size: u64 = 1_000_000;
    while size < u64::MAX / 3 {
        for delta in 0..200u64 {
            let n = size + delta * 4_999;
            assert_eq!(format_size(n), by_floating_point(n), "size {}", n);
        }
        size = size * 3 + 5_000;
    }
}

#[test]
fn sizes_beyond_the_exact_integers_match_floating_point() {
    let edges = [
        (1u64 << 53) - 1,
        1u64 << 53,
        (1u64 << 53) + 1,
        (1u64 << 53) + 2,
        (1u64 << 53) + 3,
        (1u64 << 60) + 127,
        (1u64 << 60) + 128,
        (1u64 << 60) + 129,
        (1u64 << 63) + 1023,
        (1u64 << 63) + 1024,
        (1u64 << 63) + 1025,
        u64::MAX - 2048,
        u64::MAX - 1024,
        u64::MAX - 1023,
        u64::MAX - 1,
        u64::MAX,
    ];
    for n in edges {
        assert_eq!(format_size(n), by_floating_point(n), "size {}", n);
        assert_eq!(nearest_double_of(n), (n as f64) as u128, "size {}", n);
    }
}

#[test]
fn ties_go_to_the_even_neighbour() {
    assert_eq!(rounded_quotient(5, 2), 2);
    assert_eq!(rounded_quotient(7, 2), 4);
    assert_eq!(rounded_quotient(9, 4), 2);
    assert_eq!(rounded_quotient(11, 4), 3);
}

#[test]
fn hundredths_of_a_quotient() {
    assert_eq!(hundredths_of(1_015, 1_000), 101);
    assert_eq!(hundredths_of(999_999, 1_000), 100_000);
    assert_eq!(hundredths_of(1_000_000, 1_000_000), 100);
    assert_eq!(hundredths_of(0, 1_000), 0);
}
