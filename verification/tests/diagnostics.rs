//! Figures about the database file.

use localdb_core::diagnostics::{bytes_per_chunk, format_bytes, wal_path, DbFileSize};

#[test]
fn format_bytes_covers_all_magnitudes() {
    assert_eq!(format_bytes(0), "0 B");
    assert_eq!(format_bytes(512), "512 B");
    assert_eq!(format_bytes(1536), "1.5 KB");
    assert_eq!(format_bytes(1024 * 1024), "1.0 MB");
    assert_eq!(format_bytes(45 * 1024 * 1024 * 1024), "45.0 GB");
}

#[test]
fn bytes_per_chunk_none_when_no_chunks() {
    assert_eq!(bytes_per_chunk(1_000_000, 0), None);
}

#[test]
fn bytes_per_chunk_divides_total_by_count() {
    assert_eq!(bytes_per_chunk(1_000, 10), Some(100));
}

fn by_floats(bytes: u64) -> String {
    let units = ["B", "KB", "MB", "GB", "TB"];
    let mut value = bytes as f64;
    let mut unit = 0;
    while value >= 1024.0 && unit < units.len() - 1 {
        value /= 1024.0;
        unit += 1;
    }
    if unit == 0 {
        format!("{bytes} {}", units[unit])
    } else {
        format!("{value:.1} {}", units[unit])
    }
}

#[test]
fn sizes_agree_with_floating_point() {
    let mut n: u64 = 1;
    for _ in 0..200_000 {
        n = n
            .wrapping_mul(6_364_136_223_846_793_005)
            .wrapping_add(1_442_695_040_888_963_407);
        for shift in [0, 8, 11, 20, 33, 40, 50] {
            let bytes = n >> shift;
            assert_eq!(format_bytes(bytes), by_floats(bytes), "{bytes}");
        }
    }
}

#[test]
fn sizes_agree_at_the_edges() {
    for bit in 0..64 {
        let base = 1u64 << bit;
        for delta in 0..3 {
            for bytes in [base.wrapping_sub(delta), base.wrapping_add(delta)] {
                assert_eq!(format_bytes(bytes), by_floats(bytes), "{bytes}");
            }
        }
    }
    for tenths in 0..20_480u64 {
        let bytes = tenths * 1024 / 20;
        assert_eq!(format_bytes(bytes), by_floats(bytes), "{bytes}");
    }
    assert_eq!(format_bytes(u64::MAX), by_floats(u64::MAX));
}

#[test]
fn totals_count_missing_files_as_empty() {
    let none = DbFileSize::default();
    assert_eq!(none.total_bytes(), 0);
    let both = DbFileSize {
        main_bytes: Some(1000),
        wal_bytes: Some(500),
    };
    assert_eq!(both.total_bytes(), 1500);
    assert_eq!(wal_path("/d/localdb.db"), "/d/localdb.db-wal");
}
