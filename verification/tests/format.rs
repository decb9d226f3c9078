use proxyzms::format::{bytes, progress, speed};

/// The same display computed with `f64` arithmetic.
fn float_bytes(n: u64) -> String {
    const UNITS: [&str; 5] = ["B", "KB", "MB", "GB", "TB"];
    let mut size = n as f64;
    let mut unit = 0;
    while size >= 1024.0 && unit < UNITS.len() - 1 {
        size /= 1024.0;
        unit += 1;
    }
    if unit == 0 {
        format!("{n} {}", UNITS[0])
    } else {
        format!("{size:.2} {}", UNITS[unit])
    }
}

#[test]
fn small_sizes_are_exact() {
    assert_eq!(bytes(0), "0 B");
    assert_eq!(bytes(1), "1 B");
    assert_eq!(bytes(1023), "1023 B");
}

#[test]
fn units_and_two_decimals() {
    assert_eq!(bytes(1024), "1.00 KB");
    assert_eq!(bytes(1536), "1.50 KB");
    assert_eq!(bytes(1048576), "1.00 MB");
    assert_eq!(bytes(5 * 1073741824), "5.00 GB");
    assert_eq!(bytes(1099511627776), "1.00 TB");
    assert_eq!(bytes(2048 * 1099511627776), "2048.00 TB");
}

#[test]
fn ties_round_like_the_float_formatter() {
    // 1.125 KB and 1.375 KB are exact ties at two decimals
    assert_eq!(bytes(1152), float_bytes(1152));
    assert_eq!(bytes(1408), float_bytes(1408));
    assert_eq!(bytes(1152), "1.12 KB");
    assert_eq!(bytes(1408), "1.38 KB");
}

#[test]
fn matches_float_display_on_many_values() {
    let mut n: u64 = 0;
    while n < 300_000 {
        assert_eq!(bytes(n), float_bytes(n), "n = {n}");
        n += 7;
    }
    let mut x: u64 = 0x9E37_79B9_7F4A_7C15;
    for _ in 0..200_000 {
        x ^= x << 13;
        x ^= x >> 7;
        x ^= x << 17;
        for shift in [0u32, 8, 20, 30, 40, 50, 60] {
            let n = x >> shift;
            assert_eq!(bytes(n), float_bytes(n), "n = {n}");
        }
    }
}

#[test]
fn largest_values() {
    assert_eq!(bytes(u64::MAX), float_bytes(u64::MAX));
    assert_eq!(bytes(u64::MAX), "16777216.00 TB");
    for n in [(1u64 << 53) - 1, 1u64 << 53, (1u64 << 53) + 1, (1u64 << 63) + 1023, u64::MAX - 1024] {
        assert_eq!(bytes(n), float_bytes(n), "n = {n}");
    }
}

#[test]
fn speed_appends_per_second() {
    assert_eq!(speed(0), "0 B/s");
    assert_eq!(speed(2560), "2.50 KB/s");
}

#[test]
fn download_progress_line() {
    assert_eq!(progress(0, None), "0 B");
    assert_eq!(progress(1536, None), "1.50 KB");
    assert_eq!(progress(262144, Some(10485760)), "256.00 KB / 10.00 MB");
    assert_eq!(progress(0, Some(0)), "0 B / 0 B");
}
