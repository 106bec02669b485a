use deltegic::display::{format_eta, format_speed};

fn speed_by_floats(bps: u64) -> String {
    if bps == 0 {
        return "0 B/s".to_string();
    }
    if bps < 1024 {
        return format!("{} B/s", bps);
    }
    if bps < 1024 * 1024 {
        return format!("{:.1} KB/s", bps as f64 / 1024.0);
    }
    format!("{:.1} MB/s", bps as f64 / (1024.0 * 1024.0))
}

#[test]
fn speed_small_values() {
    assert_eq!(format_speed(0), "0 B/s");
    assert_eq!(format_speed(1), "1 B/s");
    assert_eq!(format_speed(512), "512 B/s");
    assert_eq!(format_speed(1023), "1023 B/s");
}

#[test]
fn speed_kilobytes() {
    assert_eq!(format_speed(1024), "1.0 KB/s");
    assert_eq!(format_speed(1536), "1.5 KB/s");
    assert_eq!(format_speed(10 * 1024), "10.0 KB/s");
    assert_eq!(format_speed(1024 * 1024 - 1), "1024.0 KB/s");
}

#[test]
fn speed_megabytes() {
    assert_eq!(format_speed(1024 * 1024), "1.0 MB/s");
    assert_eq!(format_speed(2 * 1024 * 1024), "2.0 MB/s");
    assert_eq!(format_speed(5 * 1024 * 1024 + 512 * 1024), "5.5 MB/s");
}

#[test]
fn speed_ties_round_to_even() {
    // 1.25 KB/s and 1.75 KB/s are exact halves of a tenth
    assert_eq!(format_speed(1280), "1.2 KB/s");
    assert_eq!(format_speed(1792), "1.8 KB/s");
    assert_eq!(format_speed(1280), speed_by_floats(1280));
    assert_eq!(format_speed(1792), speed_by_floats(1792));
}

#[test]
fn speed_matches_float_formatting() {
    let mut x: u64 = 0x9e37_79b9_7f4a_7c15;
    let mut checked = 0;
    for shift in 0..64u32 {
        for _ in 0..40 {
            x = x.wrapping_mul(6364136223846793005).wrapping_add(1442695040888963407);
            let v = x >> shift;
            assert_eq!(format_speed(v), speed_by_floats(v), "value {}", v);
            checked += 1;
        }
    }
    for v in [u64::MAX, u64::MAX - 1, 1 << 53, (1 << 53) + 1, (1 << 60) + 12345, 1048575, 1048576, 1048577] {
        assert_eq!(format_speed(v), speed_by_floats(v), "value {}", v);
    }
    assert!(checked > 0);
}

#[test]
fn speed_matches_floats_on_every_kilobyte_value() {
    for v in 1000u64..(1024 * 1024 + 5000) {
        if v % 7 == 0 || v < 4096 {
            assert_eq!(format_speed(v), speed_by_floats(v), "value {}", v);
        }
    }
}

#[test]
fn eta_formats() {
    assert_eq!(format_eta(0), "0s");
    assert_eq!(format_eta(42), "42s");
    assert_eq!(format_eta(59), "59s");
    assert_eq!(format_eta(60), "1m 0s");
    assert_eq!(format_eta(185), "3m 5s");
    assert_eq!(format_eta(3599), "59m 59s");
    assert_eq!(format_eta(3600), "1h 0m");
    assert_eq!(format_eta(8100), "2h 15m");
    assert_eq!(format_eta(u64::MAX), format!("{}h {}m", u64::MAX / 3600, (u64::MAX % 3600) / 60));
}
