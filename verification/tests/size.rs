use tree2::size::{human_size, keep_53_bits, pick_unit, Unit};

fn shown(size: u64) -> (String, String) {
    let (value, unit) = human_size(size);
    (value, unit.label().to_string())
}

fn pair(value: &str, unit: &str) -> (String, String) {
    (value.to_string(), unit.to_string())
}

/// The same rendering done in floating point: the magnitude rounded to two
/// decimals, and 1023.99 where rounding would reach 1024.00 below `PB`.
fn in_floating_point(size: u64) -> (String, String) {
    let units = ["B", "KB", "MB", "GB", "TB"];
    let mut magnitude = size as f64;
    for unit in units.iter() {
        if magnitude < 1024.0 {
            let rounded = format!("{:.2}", magnitude);
            let value = if rounded == "1024.00" { "1023.99".to_string() } else { rounded };
            return (value, unit.to_string());
        }
        magnitude /= 1024.0;
    }
    (format!("{:.2}", magnitude), "PB".to_string())
}

#[test]
fn zero_bytes() {
    assert_eq!(shown(0), pair("0.00", "B"));
}

#[test]
fn one_kilobyte() {
    assert_eq!(shown(1024), pair("1.00", "KB"));
}

#[test]
fn one_and_a_half_kilobytes() {
    assert_eq!(shown(1536), pair("1.50", "KB"));
}

#[test]
fn one_terabyte() {
    assert_eq!(shown(1_099_511_627_776), pair("1.00", "TB"));
}

#[test]
fn bytes_are_shown_exactly() {
    assert_eq!(shown(1), pair("1.00", "B"));
    assert_eq!(shown(999), pair("999.00", "B"));
    assert_eq!(shown(1023), pair("1023.00", "B"));
}

#[test]
fn each_unit_begins_at_its_power_of_1024() {
    assert_eq!(shown(1_048_576), pair("1.00", "MB"));
    assert_eq!(shown(1_073_741_824), pair("1.00", "GB"));
    assert_eq!(shown(1_125_899_906_842_624), pair("1.00", "PB"));
    assert_eq!(shown(1_048_575).1, "KB");
    assert_eq!(shown(1_073_741_823).1, "MB");
    assert_eq!(shown(1_099_511_627_775).1, "GB");
    assert_eq!(shown(1_125_899_906_842_623).1, "TB");
}

#[test]
fn petabytes_may_exceed_1024() {
    assert_eq!(shown(u64::MAX), pair("16384.00", "PB"));
    assert_eq!(shown(1 << 60), pair("1024.00", "PB"));
}

#[test]
fn a_size_just_below_the_next_unit_stays_below_1024() {
    assert_eq!(shown(1_048_575), pair("1023.99", "KB"));
    assert_eq!(shown(1_048_571), pair("1023.99", "KB"));
    assert_eq!(shown(1_048_570), pair("1023.99", "KB"));
    assert_eq!(shown(1_048_565), pair("1023.99", "KB"));
    assert_eq!(shown(1_048_560), pair("1023.98", "KB"));
    assert_eq!(shown(1_073_741_823), pair("1023.99", "MB"));
    assert_eq!(shown(1_099_511_627_775), pair("1023.99", "GB"));
    assert_eq!(shown(1_125_899_906_842_623), pair("1023.99", "TB"));
}

#[test]
fn no_magnitude_reaches_1024_below_petabytes() {
    let mut samples: Vec<u64> = Vec::new();
    for shift in [10u32, 20, 30, 40, 50] {
        let next = 1u64 << shift;
        let half_a_hundredth = (next / 1024) / 200 + 2;
        for d in 1..=200u64 {
            samples.push(next - d);
            samples.push(next - d * (half_a_hundredth / 100 + 1));
        }
        samples.push(next - half_a_hundredth);
        samples.push(next - half_a_hundredth / 2);
    }
    for size in samples {
        let (value, unit) = human_size(size);
        assert_ne!(unit, Unit::PB);
        let magnitude: f64 = value.parse().unwrap();
        assert!(magnitude < 1024.0, "{} shows as {} {:?}", size, value, unit);
        assert_ne!(value, "1024.00");
    }
}

#[test]
fn a_tie_goes_to_the_even_hundredth() {
    // 1152 / 1024 = 1.125 and 1176.0 / 1024 = 1.1484375
    assert_eq!(shown(1152), pair("1.12", "KB"));
    // 1.375 KB lies between 1.37 and 1.38; 38 is even
    assert_eq!(shown(1408), pair("1.38", "KB"));
    assert_eq!(shown(1100), pair("1.07", "KB"));
}

#[test]
fn units_have_their_labels_and_scales() {
    assert_eq!(Unit::B.label(), "B");
    assert_eq!(Unit::KB.label(), "KB");
    assert_eq!(Unit::MB.label(), "MB");
    assert_eq!(Unit::GB.label(), "GB");
    assert_eq!(Unit::TB.label(), "TB");
    assert_eq!(Unit::PB.label(), "PB");
    assert_eq!(Unit::B.bytes(), 1);
    assert_eq!(Unit::KB.bytes(), 1 << 10);
    assert_eq!(Unit::MB.bytes(), 1 << 20);
    assert_eq!(Unit::GB.bytes(), 1 << 30);
    assert_eq!(Unit::TB.bytes(), 1 << 40);
    assert_eq!(Unit::PB.bytes(), 1 << 50);
}

#[test]
fn pick_unit_follows_the_thresholds() {
    assert_eq!(pick_unit(0), Unit::B);
    assert_eq!(pick_unit(1023), Unit::B);
    assert_eq!(pick_unit(1024), Unit::KB);
    assert_eq!(pick_unit((1 << 40) - 1), Unit::GB);
    assert_eq!(pick_unit(1 << 40), Unit::TB);
    assert_eq!(pick_unit(1 << 50), Unit::PB);
    assert_eq!(pick_unit(u64::MAX), Unit::PB);
}

#[test]
fn keeping_53_bits_agrees_with_double_precision() {
    let mut samples: Vec<u64> = vec![
        0,
        1,
        (1 << 53) - 1,
        1 << 53,
        (1 << 53) + 1,
        (1 << 53) + 2,
        (1 << 53) + 3,
        (1 << 54) + 2,
        (1 << 54) + 6,
        (1 << 63) + 1024,
        (1 << 63) + 1025,
        (1 << 63) + 3072,
        u64::MAX - 1024,
        u64::MAX - 1023,
        u64::MAX,
    ];
    let mut x: u64 = 0x9E37_79B9_7F4A_7C15;
    for _ in 0..2000 {
        x = x.wrapping_mul(6364136223846793005).wrapping_add(1442695040888963407);
        samples.push(x);
        samples.push(x >> 5);
        samples.push(x >> 10);
    }
    for n in samples {
        assert_eq!(keep_53_bits(n), (n as f64) as u128, "for {}", n);
    }
}

#[test]
fn human_size_agrees_with_floating_point() {
    let mut samples: Vec<u64> = Vec::new();
    for shift in 0..64u32 {
        let p = 1u64 << shift;
        for d in 0..40u64 {
            samples.push(p.wrapping_add(d));
            samples.push(p.wrapping_sub(d));
            samples.push(p.wrapping_add(p / 8 * (d % 8)));
        }
    }
    for n in 0..5000u64 {
        samples.push(n);
        samples.push(n * 128);
        samples.push(n * 1024 * 128 + 64 * 1024);
    }
    let mut x: u64 = 0x2545_F491_4F6C_DD1D;
    for _ in 0..5000 {
        x = x.wrapping_mul(6364136223846793005).wrapping_add(1442695040888963407);
        for shift in [0u32, 7, 13, 14, 23, 29, 37, 45, 51] {
            samples.push(x >> shift);
        }
    }
    for n in samples {
        assert_eq!(shown(n), in_floating_point(n), "for {}", n);
    }
}

#[test]
fn magnitude_stays_below_1024_away_from_the_next_unit() {
    for size in [0u64, 1023, 1024, 1_000_000, 1_048_000, 1_073_000_000, 1_099_000_000_000] {
        let (value, unit) = human_size(size);
        assert_ne!(unit, Unit::PB);
        let magnitude: f64 = value.parse().unwrap();
        assert!(magnitude < 1024.0, "{} {:?}", value, unit);
    }
}
