use s3_browser::size::format_size;

/// The size as floating-point formatting shows it.
fn expected(size: i64) -> String {
    if size >= 1 << 30 {
        format!("{:.1} GB", size as f64 / (1u64 << 30) as f64)
    } else if size >= 1 << 20 {
        format!("{:.1} MB", size as f64 / (1u64 << 20) as f64)
    } else if size >= 1 << 10 {
        format!("{:.1} KB", size as f64 / (1u64 << 10) as f64)
    } else {
        format!("{size} B")
    }
}

#[test]
fn each_unit_starts_at_its_size() {
    assert_eq!(format_size(0), "0 B");
    assert_eq!(format_size(1023), "1023 B");
    assert_eq!(format_size(1024), "1.0 KB");
    assert_eq!(format_size((1 << 20) - 1), "1024.0 KB");
    assert_eq!(format_size(1 << 20), "1.0 MB");
    assert_eq!(format_size((1 << 30) - 1), "1024.0 MB");
    assert_eq!(format_size(1 << 30), "1.0 GB");
}

#[test]
fn negative_sizes_are_shown_in_bytes() {
    assert_eq!(format_size(-1), "-1 B");
    assert_eq!(format_size(i64::MIN), "-9223372036854775808 B");
}

#[test]
fn halves_go_to_the_even_tenth() {
    assert_eq!(format_size(1280), "1.2 KB");
    assert_eq!(format_size(1792), "1.8 KB");
    assert_eq!(format_size(1536), "1.5 KB");
}

#[test]
fn sizes_agree_with_floating_point_formatting() {
    let mut size: i64 = 1;
    while size < i64::MAX / 3 {
        for near in [-513, -1, 0, 1, 2, 511, 512, 513] {
            assert_eq!(format_size(size + near), expected(size + near));
        }
        size = size + size / 4 + 1;
    }
    for kilobytes in 1024i64..9000 {
        assert_eq!(format_size(kilobytes), expected(kilobytes));
    }
    assert_eq!(format_size(i64::MAX), expected(i64::MAX));
    assert_eq!(format_size(i64::MAX), "8589934592.0 GB");
}

#[test]
fn huge_sizes_are_rounded_twice() {
    let quarter: i64 = 1 << 28;
    for count in [1i64 << 26, (1 << 26) + 1, (1 << 30) + 3, (1 << 33) + 1, (1 << 34) + 5] {
        for near in [-1024, -513, -512, -5, -1, 0, 1, 5, 512, 513, 1024] {
            let size = count * quarter + near;
            assert_eq!(format_size(size), expected(size));
        }
    }
    assert_eq!(format_size(((1 << 33) + 1) * quarter + 1), "2147483648.2 GB");
}

#[test]
fn larger_sizes_show_no_smaller() {
    let mut last: u64 = 0;
    for size in (1i64 << 10)..(1 << 14) {
        let shown = format_size(size);
        let tenths: u64 = shown.trim_end_matches(" KB").replace('.', "").parse().unwrap();
        assert!(tenths >= last);
        last = tenths;
    }
}

#[test]
fn shown_sizes_are_near() {
    assert_eq!(format_size(1075), "1.0 KB");
    assert_eq!(format_size(1076), "1.1 KB");
}
