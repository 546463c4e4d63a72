use netom::cli::fmt::{bytes, count, router_id, uptime};

#[test]
fn uptime_uses_hms_under_a_day() {
    assert_eq!(uptime(0), "00:00:00");
    assert_eq!(uptime(59), "00:00:59");
    assert_eq!(uptime(3661), "01:01:01");
    assert_eq!(uptime(86399), "23:59:59");
}

#[test]
fn uptime_uses_days_and_hours_under_a_week() {
    assert_eq!(uptime(86400), "1d00h");
    assert_eq!(uptime(86400 * 3 + 3600 * 4), "3d04h");
}

#[test]
fn uptime_uses_weeks_and_days_beyond_that() {
    assert_eq!(uptime(86400 * 7), "1w0d");
    assert_eq!(uptime(86400 * 30), "4w2d");
}

#[test]
fn bytes_scales_by_unit() {
    assert_eq!(bytes(512), "512 B");
    assert_eq!(bytes(1024), "1.0 KiB");
    assert_eq!(bytes(1536), "1.5 KiB");
    assert_eq!(bytes(8_402_138_624), "7.8 GiB");
}

/// The scaling as floating point numbers do it.
fn scaled(n: u64) -> String {
    let units = ["B", "KiB", "MiB", "GiB", "TiB"];
    let mut value = n as f64;
    let mut unit = 0;
    while value >= 1024.0 && unit < units.len() - 1 {
        value /= 1024.0;
        unit += 1;
    }
    if unit == 0 {
        format!("{} {}", n, units[unit])
    } else {
        format!("{:.1} {}", value, units[unit])
    }
}

#[test]
fn bytes_rounds_as_floating_point_does() {
    let mut n: u64 = 1;
    for i in 0..4000u64 {
        for around in [n.saturating_sub(1), n, n.saturating_add(i), n ^ i] {
            assert_eq!(bytes(around), scaled(around), "{}", around);
        }
        n = n.wrapping_mul(6364136223846793005).wrapping_add(1442695040888963407) >> (i % 60);
    }
    for n in [0, 1023, 1024, 1075, 1076, 1_048_575, 1_048_576, u64::MAX] {
        assert_eq!(bytes(n), scaled(n));
    }
}

#[test]
fn count_groups_thousands() {
    assert_eq!(count(0), "0");
    assert_eq!(count(999), "999");
    assert_eq!(count(1000), "1,000");
    assert_eq!(count(921034), "921,034");
    assert_eq!(count(1234567), "1,234,567");
}

#[test]
fn router_id_renders_the_byte_array_form() {
    assert_eq!(router_id(&[10, 99, 0, 1]), "10.99.0.1");
    assert_eq!(router_id(&[1, 2]), "-");
    assert_eq!(router_id(&[]), "-");
}
