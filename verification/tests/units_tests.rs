use rdm_core::units::format_bytes;

/// The same amounts, divided and rounded as floating-point numbers.
fn with_floats(bytes: u64) -> String {
    const KB: f64 = 1024.0;
    const MB: f64 = 1024.0 * 1024.0;
    const GB: f64 = 1024.0 * 1024.0 * 1024.0;

    let b = bytes as f64;
    if b >= GB {
        format!("{:.2} GB", b / GB)
    } else if b >= MB {
        format!("{:.2} MB", b / MB)
    } else if b >= KB {
        format!("{:.1} KB", b / KB)
    } else {
        format!("{} B", bytes)
    }
}

#[test]
fn bytes_in_each_unit() {
    assert_eq!(format_bytes(0), "0 B");
    assert_eq!(format_bytes(1023), "1023 B");
    assert_eq!(format_bytes(1024), "1.0 KB");
    assert_eq!(format_bytes(1536), "1.5 KB");
    assert_eq!(format_bytes(131_072), "128.0 KB");
    assert_eq!(format_bytes(1_048_575), "1024.0 KB");
    assert_eq!(format_bytes(1_048_576), "1.00 MB");
    assert_eq!(format_bytes(1_600_000), "1.53 MB");
    assert_eq!(format_bytes(1_073_741_823), "1024.00 MB");
    assert_eq!(format_bytes(1_073_741_824), "1.00 GB");
    assert_eq!(format_bytes(5_000_000_000), "4.66 GB");
    assert_eq!(format_bytes(u64::MAX), "17179869184.00 GB");
}

#[test]
fn halves_go_to_the_even_neighbour() {
    assert_eq!(format_bytes(1024 + 51), "1.0 KB");
    assert_eq!(format_bytes(1024 + 52), "1.1 KB");
    let mut ties = 0;
    for bytes in 1024u64..1_048_576 {
        if (bytes * 10) % 1024 == 512 {
            ties += 1;
            let tenths = bytes * 10 / 1024;
            let shown = if tenths % 2 == 0 { tenths } else { tenths + 1 };
            assert_eq!(format_bytes(bytes), format!("{}.{} KB", shown / 10, shown % 10));
        }
    }
    assert!(ties > 1000);
}

#[test]
fn every_amount_of_kilobytes_agrees_with_floats() {
    for bytes in (0u64..70_000).chain(1_040_000..1_048_576 + 4096) {
        assert_eq!(format_bytes(bytes), with_floats(bytes), "{bytes}");
    }
    for bytes in (70_000u64..1_040_000).step_by(37) {
        assert_eq!(format_bytes(bytes), with_floats(bytes), "{bytes}");
    }
}

#[test]
fn ties_of_megabytes_and_gigabytes_agree_with_floats() {
    let mut ties = 0;
    for bytes in 1_048_576u64..3 * 1_048_576 {
        if (bytes * 100) % 1_048_576 == 524_288 {
            ties += 1;
            assert_eq!(format_bytes(bytes), with_floats(bytes), "{bytes}");
        }
    }
    assert!(ties > 0);
    let mut ties = 0;
    let mut bytes = 1u64 << 30;
    while bytes < (1u64 << 32) {
        if (bytes as u128 * 100) % (1u128 << 30) == (1u128 << 29) {
            ties += 1;
            assert_eq!(format_bytes(bytes), with_floats(bytes), "{bytes}");
        }
        bytes += 1 << 20;
    }
    assert!(ties > 0);
}

#[test]
fn scattered_amounts_agree_with_floats() {
    let mut x: u64 = 0x9E37_79B9_7F4A_7C15;
    for _ in 0..30_000 {
        x ^= x << 13;
        x ^= x >> 7;
        x ^= x << 17;
        for shift in [0u32, 8, 16, 24, 32, 40] {
            let bytes = x >> shift;
            assert_eq!(format_bytes(bytes), with_floats(bytes), "{bytes}");
        }
    }
}

#[test]
fn amounts_beyond_53_bits_agree_with_floats() {
    for k in 52..64u32 {
        let base = 1u64 << k;
        for d in 0..1500u64 {
            for bytes in [base.wrapping_add(d), base.wrapping_sub(d), base + (base - 1 - d)] {
                assert_eq!(format_bytes(bytes), with_floats(bytes), "{bytes}");
            }
        }
    }
    for d in 0..5000u64 {
        assert_eq!(format_bytes(u64::MAX - d), with_floats(u64::MAX - d));
    }
}
